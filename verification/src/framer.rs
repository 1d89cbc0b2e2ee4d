//! The stream reassembler: raw chunks in, scan codes out.
use vstd::prelude::*;
use vstd::string::{StrSliceExecFns, StringExecFns};
use vstd::utf8::valid_utf8;
use crate::lines::{
    blank, complete_lines, is_scan_code, lemma_codes_of_lines_concat,
    lemma_codes_of_one_line, lemma_codes_split, lemma_line_closed, lemma_lines_split,
    lemma_pending_unbroken, lemma_scan_codes_shape, lemma_trim_blank, lemma_trim_window,
    lemma_unbroken_is_pending, pending_fragment, scan_codes, unbroken, LINE_BREAK,
};
use crate::text::{decode_lossy, decoded, lemma_decoded_concat, white_space};

verus! {

/// Reassembles a chunked byte stream into scan codes.
///
/// The framer keeps at most one incomplete trailing fragment between feeds.
/// Its view is that fragment.
#[derive(Debug)]
pub struct Framer {
    buffer: String,
}

impl View for Framer {
    type V = Seq<char>;

    closed spec fn view(&self) -> Seq<char> {
        self.buffer@
    }
}

impl Framer {
    /// The retained fragment never holds a line terminator.
    #[verifier::type_invariant]
    pub open spec fn well_formed(self) -> bool {
        unbroken(self@)
    }

    /// A framer with nothing pending.
    pub fn new() -> (framer: Framer)
        ensures
            framer@ == Seq::<char>::empty(),
    {
        Framer { buffer: String::new() }
    }

    /// The fragment that waits for the rest of its line.
    pub fn pending(&self) -> (fragment: &str)
        ensures
            fragment@ == self@,
            unbroken(self@),
    {
        proof {
            use_type_invariant(self);
        }
        self.buffer.as_str()
    }

    /// Appends `text` to the pending fragment and hands out every scan code
    /// that this completes, in arrival order. What follows the last line
    /// terminator stays pending.
    pub fn feed_text(&mut self, text: &str) -> (codes: Vec<String>)
        ensures
            codes.deep_view() == scan_codes(old(self)@ + text@),
            final(self)@ == pending_fragment(old(self)@ + text@),
            unbroken(final(self)@),
            forall|i: int| 0 <= i < codes.len() ==> is_scan_code(#[trigger] codes[i]@),
    {
        let mut work = String::new();
        work.append(self.buffer.as_str());
        work.append(text);
        let all: &str = work.as_str();
        let total: usize = all.unicode_len();
        let mut codes: Vec<String> = Vec::new();
        // Where the line being read starts, and the window of ink seen in it:
        // from its first to just past its last character that is not white
        // space.
        let mut line_start: usize = 0;
        let mut inked: bool = false;
        let mut ink_from: usize = 0;
        let mut ink_to: usize = 0;
        let mut at: usize = 0;
        proof {
            lemma_unbroken_is_pending(all@.take(0));
        }
        for c in it: all.chars()
            invariant
                it.seq() == all@,
                all@.len() == total,
                at == it.index(),
                line_start <= at,
                codes.deep_view() == scan_codes(all@.take(at as int)),
                pending_fragment(all@.take(at as int)) == all@.subrange(
                    line_start as int,
                    at as int,
                ),
                !inked ==> blank(all@.subrange(line_start as int, at as int)),
                inked ==> {
                    &&& line_start <= ink_from < ink_to <= at
                    &&& blank(all@.subrange(line_start as int, ink_from as int))
                    &&& !white_space(all@[ink_from as int])
                    &&& !white_space(all@[ink_to - 1])
                    &&& blank(all@.subrange(ink_to as int, at as int))
                },
        {
            let ghost seen = all@.take(at as int);
            let ghost line = all@.subrange(line_start as int, at as int);
            proof {
                // One more character: the lines seen so far stay, and the
                // character either closes the pending line or extends it.
                assert(all@.take(at + 1) =~= seen + seq![c]);
                assert(line + seq![c] =~= line.push(c));
                lemma_pending_unbroken(seen);
                lemma_lines_split(seen, seq![c]);
                lemma_codes_of_lines_concat(
                    complete_lines(seen),
                    complete_lines(line + seq![c]),
                );
            }
            if c == LINE_BREAK {
                proof {
                    lemma_line_closed(line);
                    lemma_codes_of_one_line(line);
                    if inked {
                        assert(line.take(ink_from - line_start) =~= all@.subrange(
                            line_start as int,
                            ink_from as int,
                        ));
                        assert(line.skip(ink_to - line_start) =~= all@.subrange(
                            ink_to as int,
                            at as int,
                        ));
                        lemma_trim_window(line, ink_from - line_start, ink_to - line_start);
                        assert(line.subrange(ink_from - line_start, ink_to - line_start)
                            =~= all@.subrange(ink_from as int, ink_to as int));
                    } else {
                        lemma_trim_blank(line);
                    }
                }
                if inked {
                    codes.push(all.substring_char(ink_from, ink_to).to_owned());
                }
                line_start = at + 1;
                inked = false;
            } else {
                proof {
                    lemma_unbroken_is_pending(line.push(c));
                }
                if !c.is_whitespace() {
                    if !inked {
                        ink_from = at;
                        inked = true;
                    }
                    ink_to = at + 1;
                }
            }
            at = at + 1;
        }
        proof {
            assert(all@.take(total as int) =~= all@);
            lemma_pending_unbroken(all@);
            lemma_scan_codes_shape(all@);
            assert forall|i: int| 0 <= i < codes.len() implies is_scan_code(
                #[trigger] codes[i]@,
            ) by {
                assert(codes.deep_view()[i] == codes[i]@);
            }
        }
        self.buffer = all.substring_char(line_start, total).to_owned();
        codes
    }

    /// Decodes `chunk`, appends it to the pending fragment and hands out
    /// every scan code that this completes, in arrival order. Bytes that are
    /// not well-formed text are replaced, never refused.
    pub fn feed(&mut self, chunk: &[u8]) -> (codes: Vec<String>)
        ensures
            codes.deep_view() == scan_codes(old(self)@ + decoded(chunk@)),
            final(self)@ == pending_fragment(old(self)@ + decoded(chunk@)),
            unbroken(final(self)@),
            forall|i: int| 0 <= i < codes.len() ==> is_scan_code(#[trigger] codes[i]@),
    {
        let text = decode_lossy(chunk);
        self.feed_text(text.as_str())
    }
}

/// Cutting a chunk in two changes nothing, wherever the cut falls, as long
/// as the two pieces decode to the text of the whole: fed one after the
/// other they complete the same scan codes, in the same order, and leave the
/// same fragment pending as the whole chunk fed at once.
pub proof fn law_split_feed(pending: Seq<char>, first: Seq<u8>, second: Seq<u8>)
    requires
        decoded(first + second) == decoded(first) + decoded(second),
    ensures
        scan_codes(pending + decoded(first)) + scan_codes(
            pending_fragment(pending + decoded(first)) + decoded(second),
        ) == scan_codes(pending + decoded(first + second)),
        pending_fragment(pending_fragment(pending + decoded(first)) + decoded(second))
            == pending_fragment(pending + decoded(first + second)),
{
    law_split_feed_text(pending, decoded(first), decoded(second));
}

/// Cutting text in two changes nothing, wherever the cut falls: fed one
/// after the other the two pieces complete the same scan codes, in the same
/// order, and leave the same fragment pending as the whole text fed at
/// once.
pub proof fn law_split_feed_text(pending: Seq<char>, first: Seq<char>, second: Seq<char>)
    ensures
        scan_codes(pending + first) + scan_codes(pending_fragment(pending + first) + second)
            == scan_codes(pending + (first + second)),
        pending_fragment(pending_fragment(pending + first) + second) == pending_fragment(
            pending + (first + second),
        ),
{
    assert((pending + first) + second =~= pending + (first + second));
    lemma_codes_split(pending + first, second);
    lemma_lines_split(pending + first, second);
}

/// Cutting a chunk of well-formed UTF-8 between two characters changes
/// nothing: the two pieces complete the same scan codes and leave the same
/// fragment pending as the whole chunk.
pub proof fn law_split_feed_utf8(pending: Seq<char>, first: Seq<u8>, second: Seq<u8>)
    requires
        valid_utf8(first),
        valid_utf8(second),
    ensures
        scan_codes(pending + decoded(first)) + scan_codes(
            pending_fragment(pending + decoded(first)) + decoded(second),
        ) == scan_codes(pending + decoded(first + second)),
        pending_fragment(pending_fragment(pending + decoded(first)) + decoded(second))
            == pending_fragment(pending + decoded(first + second)),
{
    lemma_decoded_concat(first, second);
    law_split_feed(pending, first, second);
}

} // verus!
