//! How buffered text falls into complete lines, scan codes and a pending
//! fragment.
use vstd::prelude::*;
use crate::text::white_space;

verus! {

/// The line terminator of the scanner stream.
pub const LINE_BREAK: char = '\n';

/// No character of `s` is a line terminator.
pub open spec fn unbroken(s: Seq<char>) -> bool {
    forall|i: int| 0 <= i < s.len() ==> s[i] != LINE_BREAK
}

/// Position of the first line terminator of `s`, or the length of `s` where
/// it has none.
pub open spec fn first_break(s: Seq<char>) -> nat
    decreases s.len(),
{
    if s.len() == 0 || s[0] == LINE_BREAK {
        0
    } else {
        1 + first_break(s.drop_first())
    }
}

/// The complete lines of `s`, in order and without their terminators: one
/// for each line terminator in `s`.
pub open spec fn complete_lines(s: Seq<char>) -> Seq<Seq<char>>
    decreases s.len(),
{
    let k = first_break(s) as int;
    if k >= s.len() {
        Seq::empty()
    } else {
        seq![s.take(k)] + complete_lines(s.skip(k + 1))
    }
}

/// What follows the last line terminator of `s`; all of `s` where it has
/// none. This is the fragment that waits for more data.
pub open spec fn pending_fragment(s: Seq<char>) -> Seq<char>
    decreases s.len(),
{
    let k = first_break(s) as int;
    if k >= s.len() {
        s
    } else {
        pending_fragment(s.skip(k + 1))
    }
}

/// The text that `lines` came from: each line followed by its terminator.
pub open spec fn rejoined(lines: Seq<Seq<char>>) -> Seq<char>
    decreases lines.len(),
{
    if lines.len() == 0 {
        Seq::empty()
    } else {
        lines[0].push(LINE_BREAK) + rejoined(lines.drop_first())
    }
}

/// Every character of `s` is white space.
pub open spec fn blank(s: Seq<char>) -> bool {
    forall|i: int| 0 <= i < s.len() ==> white_space(s[i])
}

/// `s` without its leading white space.
pub open spec fn trim_start(s: Seq<char>) -> Seq<char>
    decreases s.len(),
{
    if s.len() > 0 && white_space(s[0]) {
        trim_start(s.drop_first())
    } else {
        s
    }
}

/// `s` without its trailing white space.
pub open spec fn trim_end(s: Seq<char>) -> Seq<char>
    decreases s.len(),
{
    if s.len() > 0 && white_space(s.last()) {
        trim_end(s.drop_last())
    } else {
        s
    }
}

/// `s` without leading and trailing white space.
pub open spec fn trimmed(s: Seq<char>) -> Seq<char> {
    trim_end(trim_start(s))
}

/// The scan codes among `lines`: each line trimmed, blank lines dropped.
pub open spec fn codes_of_lines(lines: Seq<Seq<char>>) -> Seq<Seq<char>> {
    lines.map_values(|l: Seq<char>| trimmed(l)).filter(|c: Seq<char>| c.len() > 0)
}

/// The scan codes completed in `s`, in arrival order.
pub open spec fn scan_codes(s: Seq<char>) -> Seq<Seq<char>> {
    codes_of_lines(complete_lines(s))
}

/// A scan code is not empty and neither starts nor ends with white space.
pub open spec fn is_scan_code(c: Seq<char>) -> bool {
    c.len() > 0 && !white_space(c[0]) && !white_space(c.last())
}

/// `first_break` finds a line terminator where there is one, and nothing
/// before it is a line terminator.
pub proof fn lemma_first_break(s: Seq<char>)
    ensures
        first_break(s) <= s.len(),
        unbroken(s.take(first_break(s) as int)),
        first_break(s) < s.len() ==> s[first_break(s) as int] == LINE_BREAK,
        unbroken(s) <==> first_break(s) == s.len(),
    decreases s.len(),
{
    if s.len() > 0 && s[0] != LINE_BREAK {
        let rest = s.drop_first();
        let k = first_break(s) as int;
        lemma_first_break(rest);
        assert forall|i: int| 0 <= i < k implies s.take(k)[i] != LINE_BREAK by {
            if i > 0 {
                assert(s[i] == rest.take(k - 1)[i - 1]);
            }
        }
        if unbroken(s) {
            assert forall|i: int| 0 <= i < rest.len() implies rest[i] != LINE_BREAK by {
                assert(rest[i] == s[i + 1]);
            }
        }
        if k == s.len() {
            assert(rest.take(k - 1) =~= rest);
            assert forall|i: int| 0 <= i < s.len() implies s[i] != LINE_BREAK by {
                if i > 0 {
                    assert(s[i] == rest[i - 1]);
                }
            }
        }
    }
}

/// The first line terminator of `a + b` is that of `a`, or else that of `b`.
pub proof fn lemma_first_break_concat(a: Seq<char>, b: Seq<char>)
    ensures
        first_break(a + b) == if first_break(a) < a.len() {
            first_break(a)
        } else {
            a.len() + first_break(b)
        },
    decreases a.len(),
{
    if a.len() == 0 {
        assert(a + b =~= b);
    } else if a[0] != LINE_BREAK {
        assert((a + b).drop_first() =~= a.drop_first() + b);
        lemma_first_break_concat(a.drop_first(), b);
    }
}

/// Text without a line terminator has no complete line and is pending as a
/// whole.
pub proof fn lemma_unbroken_is_pending(s: Seq<char>)
    requires
        unbroken(s),
    ensures
        complete_lines(s) == Seq::<Seq<char>>::empty(),
        pending_fragment(s) == s,
        scan_codes(s) == Seq::<Seq<char>>::empty(),
{
    lemma_first_break(s);
    lemma_codes_of_no_lines();
}

/// The pending fragment never holds a line terminator.
pub proof fn lemma_pending_unbroken(s: Seq<char>)
    ensures
        unbroken(pending_fragment(s)),
    decreases s.len(),
{
    lemma_first_break(s);
    let k = first_break(s) as int;
    if k < s.len() {
        lemma_pending_unbroken(s.skip(k + 1));
    }
}

/// Splitting text between two feeds changes neither the lines nor the
/// pending fragment: the lines of `a + b` are those of `a` followed by those
/// that `b` completes on top of what `a` left pending.
pub proof fn lemma_lines_split(a: Seq<char>, b: Seq<char>)
    ensures
        complete_lines(a + b) == complete_lines(a) + complete_lines(pending_fragment(a) + b),
        pending_fragment(a + b) == pending_fragment(pending_fragment(a) + b),
    decreases a.len(),
{
    lemma_first_break(a);
    lemma_first_break_concat(a, b);
    let k = first_break(a) as int;
    if k < a.len() {
        let rest = a.skip(k + 1);
        assert((a + b).take(k) =~= a.take(k));
        assert((a + b).skip(k + 1) =~= rest + b);
        lemma_lines_split(rest, b);
    }
}

/// Splitting loses nothing and invents nothing: the complete lines, each
/// with its terminator put back, followed by the pending fragment, are the
/// text itself, and no line holds a terminator.
pub proof fn law_lines_reassemble(s: Seq<char>)
    ensures
        rejoined(complete_lines(s)) + pending_fragment(s) == s,
        forall|i: int|
            0 <= i < complete_lines(s).len() ==> unbroken(#[trigger] complete_lines(s)[i]),
        unbroken(pending_fragment(s)),
    decreases s.len(),
{
    lemma_first_break(s);
    lemma_pending_unbroken(s);
    let k = first_break(s) as int;
    if k < s.len() {
        let rest = s.skip(k + 1);
        let lines = complete_lines(s);
        law_lines_reassemble(rest);
        assert(lines.drop_first() =~= complete_lines(rest));
        assert(s.take(k).push(LINE_BREAK) =~= s.take(k + 1));
        assert(rejoined(lines) + pending_fragment(s) =~= s.take(k + 1) + (rejoined(
            complete_lines(rest),
        ) + pending_fragment(rest)));
        assert forall|i: int| 0 <= i < lines.len() implies unbroken(#[trigger] lines[i]) by {
            if i > 0 {
                assert(lines[i] == complete_lines(rest)[i - 1]);
            }
        }
    }
}

/// A line terminator after unbroken text completes exactly that text and
/// leaves nothing pending.
pub proof fn lemma_line_closed(q: Seq<char>)
    requires
        unbroken(q),
    ensures
        complete_lines(q.push(LINE_BREAK)) == seq![q],
        pending_fragment(q.push(LINE_BREAK)) == Seq::<char>::empty(),
{
    let s = q.push(LINE_BREAK);
    let none = Seq::<char>::empty();
    lemma_first_break(q);
    lemma_first_break_concat(q, seq![LINE_BREAK]);
    assert(s =~= q + seq![LINE_BREAK]);
    assert(s.take(q.len() as int) =~= q);
    assert(s.skip(q.len() as int + 1) =~= none);
    assert(complete_lines(none) =~= Seq::<Seq<char>>::empty());
    assert(pending_fragment(none) =~= none);
}

/// Where the first `a` characters are white space and the next one is not,
/// trimming the start removes exactly those `a`.
pub proof fn lemma_trim_start_at(s: Seq<char>, a: int)
    requires
        0 <= a <= s.len(),
        blank(s.take(a)),
        a < s.len() ==> !white_space(s[a]),
    ensures
        trim_start(s) == s.skip(a),
    decreases a,
{
    if a > 0 {
        let rest = s.drop_first();
        assert(s.take(a)[0] == s[0]);
        assert forall|i: int| 0 <= i < a - 1 implies white_space(
            #[trigger] rest.take(a - 1)[i],
        ) by {
            assert(rest.take(a - 1)[i] == s.take(a)[i + 1]);
        }
        lemma_trim_start_at(rest, a - 1);
        assert(rest.skip(a - 1) =~= s.skip(a));
    }
}

/// Where everything from position `b` on is white space and the character
/// before `b` is not, trimming the end keeps exactly the first `b`.
pub proof fn lemma_trim_end_at(s: Seq<char>, b: int)
    requires
        0 <= b <= s.len(),
        blank(s.skip(b)),
        b > 0 ==> !white_space(s[b - 1]),
    ensures
        trim_end(s) == s.take(b),
    decreases s.len() - b,
{
    if b < s.len() {
        let rest = s.drop_last();
        assert(s.skip(b)[s.len() - b - 1] == s.last());
        assert forall|i: int| 0 <= i < rest.len() - b implies white_space(
            #[trigger] rest.skip(b)[i],
        ) by {
            assert(rest.skip(b)[i] == s.skip(b)[i]);
        }
        lemma_trim_end_at(rest, b);
        assert(rest.take(b) =~= s.take(b));
    }
}

/// Where `a` and `b` bound the first and the last character of `s` that is
/// not white space, trimming keeps exactly what lies between them.
pub proof fn lemma_trim_window(s: Seq<char>, a: int, b: int)
    requires
        0 <= a < b <= s.len(),
        blank(s.take(a)),
        !white_space(s[a]),
        !white_space(s[b - 1]),
        blank(s.skip(b)),
    ensures
        trimmed(s) == s.subrange(a, b),
{
    lemma_trim_start_at(s, a);
    assert(s.skip(a).skip(b - a) =~= s.skip(b));
    lemma_trim_end_at(s.skip(a), b - a);
}

/// Trimming blank text leaves nothing.
pub proof fn lemma_trim_blank(s: Seq<char>)
    requires
        blank(s),
    ensures
        trimmed(s) == Seq::<char>::empty(),
{
    assert(s.take(s.len() as int) =~= s);
    lemma_trim_start_at(s, s.len() as int);
}

/// Trimming the start leaves text that does not start with white space.
pub proof fn lemma_trim_start_shape(s: Seq<char>)
    ensures
        trim_start(s).len() > 0 ==> !white_space(trim_start(s)[0]),
    decreases s.len(),
{
    if s.len() > 0 && white_space(s[0]) {
        lemma_trim_start_shape(s.drop_first());
    }
}

/// Trimming the end keeps a prefix that does not end with white space.
pub proof fn lemma_trim_end_shape(s: Seq<char>)
    ensures
        trim_end(s).len() <= s.len(),
        trim_end(s) == s.take(trim_end(s).len() as int),
        trim_end(s).len() > 0 ==> !white_space(trim_end(s).last()),
    decreases s.len(),
{
    if s.len() > 0 && white_space(s.last()) {
        lemma_trim_end_shape(s.drop_last());
    }
}

/// Trimmed text is empty or a well-formed scan code.
pub proof fn lemma_trimmed_shape(s: Seq<char>)
    ensures
        trimmed(s).len() > 0 ==> is_scan_code(trimmed(s)),
{
    lemma_trim_start_shape(s);
    lemma_trim_end_shape(trim_start(s));
}

/// No lines, no codes.
pub proof fn lemma_codes_of_no_lines()
    ensures
        codes_of_lines(Seq::<Seq<char>>::empty()) == Seq::<Seq<char>>::empty(),
{
}

/// One line gives one code, unless it is blank.
pub proof fn lemma_codes_of_one_line(l: Seq<char>)
    ensures
        codes_of_lines(seq![l]) == if trimmed(l).len() > 0 {
            seq![trimmed(l)]
        } else {
            Seq::<Seq<char>>::empty()
        },
{
    let none = Seq::<Seq<char>>::empty();
    assert(seq![l].map_values(|l: Seq<char>| trimmed(l)) =~= none.push(trimmed(l)));
    none.lemma_filter_push(trimmed(l), |c: Seq<char>| c.len() > 0);
}

/// The codes of a run of lines are the codes of its parts, in order.
pub proof fn lemma_codes_of_lines_concat(x: Seq<Seq<char>>, y: Seq<Seq<char>>)
    ensures
        codes_of_lines(x + y) == codes_of_lines(x) + codes_of_lines(y),
{
    let trim = |l: Seq<char>| trimmed(l);
    assert((x + y).map_values(trim) =~= x.map_values(trim) + y.map_values(trim));
    Seq::filter_distributes_over_add(
        x.map_values(trim),
        y.map_values(trim),
        |c: Seq<char>| c.len() > 0,
    );
}

/// Splitting text between two feeds changes no scan code: the codes of
/// `a + b` are those of `a` followed by those that `b` completes on top of
/// what `a` left pending.
pub proof fn lemma_codes_split(a: Seq<char>, b: Seq<char>)
    ensures
        scan_codes(a + b) == scan_codes(a) + scan_codes(pending_fragment(a) + b),
{
    lemma_lines_split(a, b);
    lemma_codes_of_lines_concat(complete_lines(a), complete_lines(pending_fragment(a) + b));
}

/// Every scan code is non-empty and carries no white space at either end.
pub proof fn lemma_scan_codes_shape(s: Seq<char>)
    ensures
        forall|i: int| 0 <= i < scan_codes(s).len() ==> is_scan_code(#[trigger] scan_codes(s)[i]),
{
    let kept = |c: Seq<char>| c.len() > 0;
    let lines = complete_lines(s).map_values(|l: Seq<char>| trimmed(l));
    assert forall|i: int| 0 <= i < scan_codes(s).len() implies is_scan_code(
        #[trigger] scan_codes(s)[i],
    ) by {
        let c = lines.filter(kept)[i];
        lines.lemma_filter_pred(kept, i);
        lines.lemma_filter_contains_rev(kept, c);
        let j = choose|j: int| 0 <= j < lines.len() && lines[j] == c;
        lemma_trimmed_shape(complete_lines(s)[j]);
    }
}

} // verus!
