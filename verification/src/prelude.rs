//! Extensions shared across the crate.

use vstd::prelude::*;

verus! {

/// A peekable character stream that can hand over the longest prefix on
/// which a predicate holds, while the first character the predicate refuses
/// stays in the stream (unlike std's `take_while` adapters, which consume
/// it).
pub trait IteratorExt {
    /// The whole underlying text.
    spec fn stream_text(&self) -> Seq<char>;

    /// How much of the text is already consumed.
    spec fn stream_cursor(&self) -> int;

    /// Consumes and returns the longest run of characters on which
    /// `predicate` holds.
    fn take_while<F: Fn(char) -> bool>(&mut self, predicate: F) -> (r: String)
        requires
            0 <= old(self).stream_cursor() <= old(self).stream_text().len(),
            forall|c: char| #![auto] call_requires(predicate, (c,)),
        ensures
            final(self).stream_text() == old(self).stream_text(),
            old(self).stream_cursor() <= final(self).stream_cursor() <= final(self).stream_text().len(),
            r@ == final(self).stream_text().subrange(
                old(self).stream_cursor(),
                final(self).stream_cursor(),
            ),
            forall|j: int|
                old(self).stream_cursor() <= j < final(self).stream_cursor() ==> call_ensures(
                    predicate,
                    (final(self).stream_text()[j],),
                    true,
                ),
            final(self).stream_cursor() < final(self).stream_text().len() ==> call_ensures(
                predicate,
                (final(self).stream_text()[final(self).stream_cursor()],),
                false,
            ),
    ;
}

} // verus!
