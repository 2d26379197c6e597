//! A cursor over a date string, moved by `unscanny`'s `Scanner`.
//!
//! The cursor is a byte position, as in `unscanny`; the ghost position `pos`
//! is the index of the character that the cursor stands before.

use vstd::prelude::*;
use vstd::utf8::encode_utf8;

use crate::text::is_ascii_digit;

verus! {

/// The byte position, in the UTF-8 encoding of `t`, of the character at index `i`.
pub open spec fn byte_offset(t: Seq<char>, i: int) -> nat {
    encode_utf8(t.take(i)).len()
}

/// The number of ASCII digits in `t` from index `i` on, up to the first
/// character that is not one.
pub open spec fn digit_run_len(t: Seq<char>, i: int) -> nat
    decreases t.len() - i,
{
    if 0 <= i < t.len() && is_ascii_digit(t[i]) {
        1 + digit_run_len(t, i + 1)
    } else {
        0
    }
}

/// Calls `unscanny::Scanner::eat_while(char::is_ascii_digit)` on a scanner
/// over `text` whose cursor is at byte `cursor`, a character boundary.
/// Claimed: it returns the run of ASCII digits that starts at the cursor and
/// the cursor after it (each digit is one byte long).
#[verifier::external_body]
fn scanner_eat_digits<'a>(text: &'a str, cursor: usize) -> (res: (&'a str, usize))
    requires
        exists|i: int| 0 <= i <= text@.len() && cursor == #[trigger] byte_offset(text@, i),
    ensures
        forall|i: int|
            0 <= i <= text@.len() && cursor == #[trigger] byte_offset(text@, i) ==> {
                &&& res.0@ == text@.subrange(i, i + digit_run_len(text@, i))
                &&& res.1 == byte_offset(text@, i + digit_run_len(text@, i))
            },
{
    let mut s = unscanny::Scanner::new(text);
    s.jump(cursor);
    let run = s.eat_while(char::is_ascii_digit);
    (run, s.cursor())
}

/// Calls `unscanny::Scanner::peek` on a scanner over `text` whose cursor is at
/// byte `cursor`, a character boundary. Claimed: it returns the character
/// right behind the cursor, or `None` at the end of the text.
#[verifier::external_body]
fn scanner_peek(text: &str, cursor: usize) -> (res: Option<char>)
    requires
        exists|i: int| 0 <= i <= text@.len() && cursor == #[trigger] byte_offset(text@, i),
    ensures
        forall|i: int|
            0 <= i <= text@.len() && cursor == #[trigger] byte_offset(text@, i) ==> res == (if i
                < text@.len() {
                Some(text@[i])
            } else {
                None
            }),
{
    let mut s = unscanny::Scanner::new(text);
    s.jump(cursor);
    s.peek()
}

/// Calls `unscanny::Scanner::eat` on a scanner over `text` whose cursor is at
/// byte `cursor`, a character boundary. Claimed: it returns the character
/// right behind the cursor and moves the cursor past it; at the end of the
/// text it returns `None` and the cursor stays.
#[verifier::external_body]
fn scanner_eat(text: &str, cursor: usize) -> (res: (Option<char>, usize))
    requires
        exists|i: int| 0 <= i <= text@.len() && cursor == #[trigger] byte_offset(text@, i),
    ensures
        forall|i: int|
            0 <= i <= text@.len() && cursor == #[trigger] byte_offset(text@, i) ==> if i
                < text@.len() {
                res.0 == Some(text@[i]) && res.1 == byte_offset(text@, i + 1)
            } else {
                res.0 is None && res.1 == cursor
            },
{
    let mut s = unscanny::Scanner::new(text);
    s.jump(cursor);
    let c = s.eat();
    (c, s.cursor())
}

/// A scanner over a date string: the text, the byte cursor and the index of
/// the character at the cursor.
pub struct DateScanner<'a> {
    text: &'a str,
    cursor: usize,
    pos: Ghost<nat>,
}

impl<'a> DateScanner<'a> {
    /// The text being scanned.
    pub closed spec fn text(&self) -> Seq<char> {
        self.text@
    }

    /// The index of the character right behind the cursor.
    pub closed spec fn pos(&self) -> int {
        self.pos@ as int
    }

    /// The cursor stands on the character boundary before character `pos`.
    pub closed spec fn wf(&self) -> bool {
        &&& self.pos@ <= self.text@.len()
        &&& self.cursor == byte_offset(self.text@, self.pos@ as int)
    }

    /// The cursor of a well-formed scanner lies within the text.
    pub proof fn lemma_pos_bound(&self)
        requires
            self.wf(),
        ensures
            0 <= self.pos() <= self.text().len(),
    {
    }

    /// A scanner at the start of `text`.
    pub fn new(text: &'a str) -> (s: Self)
        ensures
            s.wf(),
            s.text() == text@,
            s.pos() == 0,
    {
        assert(text@.take(0) =~= Seq::<char>::empty());
        DateScanner { text, cursor: 0, pos: Ghost(0) }
    }

    /// Consumes the run of ASCII digits behind the cursor and returns it.
    pub fn eat_digits(&mut self) -> (run: &'a str)
        requires
            old(self).wf(),
        ensures
            final(self).wf(),
            final(self).text() == old(self).text(),
            final(self).pos() == old(self).pos() + digit_run_len(old(self).text(), old(self).pos()),
            run@ == old(self).text().subrange(old(self).pos(), final(self).pos()),
    {
        let ghost i = self.pos@ as int;
        assert(byte_offset(self.text@, i) == self.cursor);
        let (run, cursor) = scanner_eat_digits(self.text, self.cursor);
        proof { lemma_digit_run_bound(self.text@, i); }
        self.cursor = cursor;
        self.pos = Ghost((i + digit_run_len(self.text@, i)) as nat);
        run
    }

    /// The character behind the cursor, if any.
    pub fn peek(&self) -> (c: Option<char>)
        requires
            self.wf(),
        ensures
            c == (if self.pos() < self.text().len() {
                Some(self.text()[self.pos()])
            } else {
                None
            }),
    {
        let ghost i = self.pos@ as int;
        assert(byte_offset(self.text@, i) == self.cursor);
        scanner_peek(self.text, self.cursor)
    }

    /// Consumes and returns the character behind the cursor, if any.
    pub fn eat(&mut self) -> (c: Option<char>)
        requires
            old(self).wf(),
        ensures
            final(self).wf(),
            final(self).text() == old(self).text(),
            c == (if old(self).pos() < old(self).text().len() {
                Some(old(self).text()[old(self).pos()])
            } else {
                None
            }),
            final(self).pos() == (if old(self).pos() < old(self).text().len() {
                old(self).pos() + 1
            } else {
                old(self).pos()
            }),
    {
        let ghost i = self.pos@ as int;
        assert(byte_offset(self.text@, i) == self.cursor);
        let (c, cursor) = scanner_eat(self.text, self.cursor);
        self.cursor = cursor;
        if c.is_some() {
            self.pos = Ghost((i + 1) as nat);
        }
        c
    }
}

/// A run of digits never reaches past the end of the text.
pub proof fn lemma_digit_run_bound(t: Seq<char>, i: int)
    requires
        0 <= i <= t.len(),
    ensures
        i + digit_run_len(t, i) <= t.len(),
    decreases t.len() - i,
{
    if i < t.len() && is_ascii_digit(t[i]) {
        lemma_digit_run_bound(t, i + 1);
    }
}

} // verus!
