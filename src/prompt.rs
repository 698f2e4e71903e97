//! A one-line text prompt: the text typed so far and a cursor that stays on
//! a grapheme boundary. Where the boundaries lie is unicode-segmentation's
//! work.
use unicode_segmentation::GraphemeCursor;
use vstd::prelude::*;
use vstd::utf8::{
    encode_utf8, encode_utf8_valid_utf8, is_char_boundary, is_char_boundary_iff_not_is_continuation_byte,
    is_char_boundary_start_end_of_seq, is_continuation_byte, valid_utf8,
};

verus! {

/// The extended grapheme boundary that unicode-segmentation finds after byte
/// offset `offset` of `text`.
pub uninterp spec fn grapheme_after(text: Seq<char>, offset: usize) -> Option<usize>;

/// The extended grapheme boundary that unicode-segmentation finds before
/// byte offset `offset` of `text`.
pub uninterp spec fn grapheme_before(text: Seq<char>, offset: usize) -> Option<usize>;

/// Relies on unicode-segmentation's `GraphemeCursor::next_boundary`, given
/// the whole text: a boundary lies on a char boundary, past `offset`.
#[verifier::external_body]
fn next_grapheme_boundary(text: &str, offset: usize) -> (r: Option<usize>)
    requires
        offset <= encode_utf8(text@).len(),
        is_char_boundary(encode_utf8(text@), offset as int),
    ensures
        r == grapheme_after(text@, offset),
        r matches Some(n) ==> offset < n <= encode_utf8(text@).len() && is_char_boundary(
            encode_utf8(text@),
            n as int,
        ),
{
    let mut cursor = GraphemeCursor::new(offset, text.len(), true);
    match cursor.next_boundary(text, 0) {
        Ok(r) => r,
        Err(_) => None,
    }
}

/// Relies on unicode-segmentation's `GraphemeCursor::prev_boundary`, given
/// the whole text: a boundary lies on a char boundary, before `offset`.
#[verifier::external_body]
fn prev_grapheme_boundary(text: &str, offset: usize) -> (r: Option<usize>)
    requires
        offset <= encode_utf8(text@).len(),
        is_char_boundary(encode_utf8(text@), offset as int),
    ensures
        r == grapheme_before(text@, offset),
        r matches Some(n) ==> n < offset && is_char_boundary(encode_utf8(text@), n as int),
{
    let mut cursor = GraphemeCursor::new(offset, text.len(), true);
    match cursor.prev_boundary(text, 0) {
        Ok(r) => r,
        Err(_) => None,
    }
}

/// Relies on `String::insert`: the UTF-8 bytes of `c` go in at byte index
/// `idx`, which must be a char boundary.
#[verifier::external_body]
fn insert_at(s: &mut String, idx: usize, c: char)
    requires
        idx <= encode_utf8(old(s)@).len(),
        is_char_boundary(encode_utf8(old(s)@), idx as int),
    ensures
        encode_utf8(final(s)@) == encode_utf8(old(s)@).subrange(0, idx as int) + encode_utf8(
            seq![c],
        ) + encode_utf8(old(s)@).subrange(idx as int, encode_utf8(old(s)@).len() as int),
{
    s.insert(idx, c)
}

/// Relies on `String::replace_range` with an empty replacement: the bytes
/// from `start` up to `end`, both char boundaries, are removed.
#[verifier::external_body]
fn remove_range(s: &mut String, start: usize, end: usize)
    requires
        start <= end <= encode_utf8(old(s)@).len(),
        is_char_boundary(encode_utf8(old(s)@), start as int),
        is_char_boundary(encode_utf8(old(s)@), end as int),
    ensures
        encode_utf8(final(s)@) == encode_utf8(old(s)@).subrange(0, start as int) + encode_utf8(
            old(s)@,
        ).subrange(end as int, encode_utf8(old(s)@).len() as int),
{
    s.replace_range(start..end, "")
}

/// Where the cursor lands after stepping `n` graphemes back from `offset`;
/// it stops at the start of the text.
pub open spec fn back_steps(text: Seq<char>, offset: usize, n: nat) -> usize
    decreases n,
{
    if n == 0 {
        offset
    } else {
        match grapheme_before(text, offset) {
            Some(p) => back_steps(text, p, (n - 1) as nat),
            None => offset,
        }
    }
}

proof fn lemma_boundary_at_joint(bytes: Seq<u8>, a: Seq<u8>, b: Seq<u8>)
    requires
        valid_utf8(bytes),
        bytes == a + b,
        b.len() > 0 ==> !is_continuation_byte(b[0]),
    ensures
        is_char_boundary(bytes, a.len() as int),
{
    if b.len() == 0 {
        assert(bytes =~= a);
        is_char_boundary_start_end_of_seq(bytes);
    } else {
        assert(bytes[a.len() as int] == b[0]);
        is_char_boundary_iff_not_is_continuation_byte(bytes, a.len() as int);
    }
}

/// A cursor movement.
#[derive(Clone, Copy, Debug)]
pub enum Move {
    BackwardChar(usize),
}

/// A key press, as far as the prompt reads it.
#[derive(Clone, Copy, Debug, PartialEq, Eq, Structural)]
pub enum KeyInput {
    Backspace,
    Char(char),
    Other,
}

/// The text of a prompt and the byte offset of its cursor.
pub struct Prompt {
    line: String,
    cursor: usize,
}

impl View for Prompt {
    type V = (Seq<char>, usize);

    closed spec fn view(&self) -> (Seq<char>, usize) {
        (self.line@, self.cursor)
    }
}

impl Prompt {
    /// The cursor stands on a char boundary of the text.
    pub closed spec fn wf(&self) -> bool {
        &&& self.cursor <= encode_utf8(self.line@).len()
        &&& is_char_boundary(encode_utf8(self.line@), self.cursor as int)
    }

    /// An empty prompt, its cursor at the start.
    pub fn new() -> (r: Prompt)
        ensures
            r@ == (Seq::<char>::empty(), 0usize),
            r.wf(),
    {
        let line = String::new();
        proof {
            encode_utf8_valid_utf8(line@);
        }
        Prompt { line, cursor: 0 }
    }

    /// The text typed so far.
    pub fn line(&self) -> (r: &str)
        ensures
            r@ == self@.0,
    {
        self.line.as_str()
    }

    /// The byte offset of the cursor in the text.
    pub fn cursor(&self) -> (r: usize)
        ensures
            r == self@.1,
    {
        self.cursor
    }

    /// Types `c` at the cursor; the cursor then moves to the next grapheme
    /// boundary, or stays if there is none.
    pub fn insert_char(&mut self, c: char)
        requires
            old(self).wf(),
        ensures
            final(self).wf(),
            encode_utf8(final(self)@.0) == encode_utf8(old(self)@.0).subrange(0, old(self)@.1 as int)
                + encode_utf8(seq![c]) + encode_utf8(old(self)@.0).subrange(
                old(self)@.1 as int,
                encode_utf8(old(self)@.0).len() as int,
            ),
            final(self)@.1 == match grapheme_after(final(self)@.0, old(self)@.1) {
                Some(p) => p,
                None => old(self)@.1,
            },
    {
        insert_at(&mut self.line, self.cursor, c);
        proof {
            let old_bytes = encode_utf8(old(self)@.0);
            let k = self.cursor as int;
            let e = encode_utf8(seq![c]);
            let rest = e + old_bytes.subrange(k, old_bytes.len() as int);
            encode_utf8_valid_utf8(self.line@);
            encode_utf8_valid_utf8(seq![c]);
            assert(e.len() > 0) by {
                reveal_with_fuel(encode_utf8, 2);
            }
            is_char_boundary_iff_not_is_continuation_byte(e, 0);
            assert(rest[0] == e[0]);
            assert(encode_utf8(self.line@) =~= old_bytes.subrange(0, k) + rest);
            lemma_boundary_at_joint(encode_utf8(self.line@), old_bytes.subrange(0, k), rest);
        }
        match next_grapheme_boundary(self.line.as_str(), self.cursor) {
            Some(pos) => {
                self.cursor = pos;
            },
            None => {},
        }
    }

    /// Where the cursor would land after the movement `m`.
    pub fn move_cursor(&self, m: Move) -> (r: usize)
        requires
            self.wf(),
        ensures
            r == match m {
                Move::BackwardChar(n) => back_steps(self@.0, self@.1, n as nat),
            },
            r <= self@.1,
            is_char_boundary(encode_utf8(self@.0), r as int),
    {
        match m {
            Move::BackwardChar(n) => self.backward(n),
        }
    }

    fn backward(&self, n: usize) -> (r: usize)
        requires
            self.wf(),
        ensures
            r == back_steps(self.line@, self.cursor, n as nat),
            r <= self.cursor,
            is_char_boundary(encode_utf8(self.line@), r as int),
    {
        let mut position = self.cursor;
        let mut i: usize = 0;
        let mut stopped = false;
        while i < n && !stopped
            invariant
                i <= n,
                position <= self.cursor,
                self.wf(),
                is_char_boundary(encode_utf8(self.line@), position as int),
                stopped ==> back_steps(self.line@, self.cursor, n as nat) == position,
                !stopped ==> back_steps(self.line@, self.cursor, n as nat) == back_steps(
                    self.line@,
                    position,
                    (n - i) as nat,
                ),
            decreases n - i,
        {
            match prev_grapheme_boundary(self.line.as_str(), position) {
                Some(pos) => {
                    position = pos;
                    i = i + 1;
                },
                None => {
                    stopped = true;
                    i = i + 1;
                },
            }
        }
        position
    }

    /// Deletes the grapheme before the cursor, if any, and moves the cursor
    /// to where it began.
    pub fn delete_backward(&mut self)
        requires
            old(self).wf(),
        ensures
            final(self).wf(),
            final(self)@.1 == back_steps(old(self)@.0, old(self)@.1, 1),
            encode_utf8(final(self)@.0) == encode_utf8(old(self)@.0).subrange(0, final(self)@.1 as int)
                + encode_utf8(old(self)@.0).subrange(
                old(self)@.1 as int,
                encode_utf8(old(self)@.0).len() as int,
            ),
    {
        let pos = self.move_cursor(Move::BackwardChar(1));
        let ghost old_bytes = encode_utf8(self.line@);
        let ghost k = self.cursor as int;
        remove_range(&mut self.line, pos, self.cursor);
        proof {
            let rest = old_bytes.subrange(k, old_bytes.len() as int);
            encode_utf8_valid_utf8(self.line@);
            encode_utf8_valid_utf8(old(self)@.0);
            if k < old_bytes.len() {
                is_char_boundary_iff_not_is_continuation_byte(old_bytes, k);
                assert(rest[0] == old_bytes[k]);
            }
            lemma_boundary_at_joint(encode_utf8(self.line@), old_bytes.subrange(0, pos as int), rest);
        }
        self.cursor = pos;
    }

    /// Applies a key press: a character is typed at the cursor, backspace
    /// deletes the grapheme before it, other keys are ignored. Returns
    /// whether the key was consumed.
    pub fn handle_key_event(&mut self, key: KeyInput) -> (r: bool)
        requires
            old(self).wf(),
        ensures
            final(self).wf(),
            r == !(key is Other),
            key is Other ==> final(self)@ == old(self)@,
            key matches KeyInput::Char(c) ==> encode_utf8(final(self)@.0) == encode_utf8(
                old(self)@.0,
            ).subrange(0, old(self)@.1 as int) + encode_utf8(seq![c]) + encode_utf8(
                old(self)@.0,
            ).subrange(old(self)@.1 as int, encode_utf8(old(self)@.0).len() as int),
            key is Backspace ==> final(self)@.1 == back_steps(old(self)@.0, old(self)@.1, 1)
                && encode_utf8(final(self)@.0) == encode_utf8(old(self)@.0).subrange(
                0,
                final(self)@.1 as int,
            ) + encode_utf8(old(self)@.0).subrange(
                old(self)@.1 as int,
                encode_utf8(old(self)@.0).len() as int,
            ),
    {
        match key {
            KeyInput::Backspace => {
                self.delete_backward();
                true
            },
            KeyInput::Char(c) => {
                self.insert_char(c);
                true
            },
            KeyInput::Other => false,
        }
    }
}

} // verus!
