//! A text buffer with a caret kept as a UTF-8 byte offset, and the edits that
//! move it or type and delete at it.
use vstd::prelude::*;
use crate::text::chars_of;
use vstd::utf8::{decode_utf8, encode_scalar, encode_utf8, is_char_boundary, pop_first_scalar};

verus! {

/// The number of bytes in the UTF-8 encoding of `c`.
pub open spec fn utf8_width(c: char) -> nat {
    encode_scalar(c as u32).len()
}

/// The byte offset at which the character at position `k` of `s` starts.
pub open spec fn byte_offset(s: Seq<char>, k: int) -> nat {
    encode_utf8(s.take(k)).len()
}

/// Encoding is compatible with concatenation.
pub proof fn lemma_encode_concat(a: Seq<char>, b: Seq<char>)
    ensures
        encode_utf8(a + b) == encode_utf8(a) + encode_utf8(b),
    decreases a.len(),
{
    if a.len() == 0 {
        assert(a + b =~= b);
        assert(encode_utf8(a) + encode_utf8(b) =~= encode_utf8(b));
    } else {
        lemma_encode_concat(a.drop_first(), b);
        assert((a + b).drop_first() =~= a.drop_first() + b);
        assert((a + b)[0] == a[0]);
        assert(encode_utf8(a + b) =~= encode_utf8(a) + encode_utf8(b));
    }
}

/// Each character takes one to four bytes.
pub proof fn lemma_width_bounds(c: char)
    ensures
        1 <= utf8_width(c) <= 4,
{
}

/// The encoding of a single character.
proof fn lemma_encode_one(c: char)
    ensures
        encode_utf8(seq![c]) == encode_scalar(c as u32),
{
    let one = seq![c];
    assert(one.drop_first() =~= Seq::<char>::empty());
    assert(one[0] == c);
    assert(encode_utf8(one.drop_first()) == Seq::<u8>::empty());
    assert(encode_utf8(one) == encode_scalar(c as u32) + encode_utf8(one.drop_first()));
    assert(encode_utf8(one) =~= encode_scalar(c as u32));
}

/// Moving one character on moves the byte offset by that character's width.
pub proof fn lemma_byte_offset_step(s: Seq<char>, k: int)
    requires
        0 <= k < s.len(),
    ensures
        byte_offset(s, k + 1) == byte_offset(s, k) + utf8_width(s[k]),
{
    assert(s.take(k + 1) =~= s.take(k) + seq![s[k]]);
    lemma_encode_concat(s.take(k), seq![s[k]]);
    lemma_encode_one(s[k]);
}

/// The bytes before and after the offset of position `k` encode the
/// characters before and after it.
pub proof fn lemma_byte_offset_split(s: Seq<char>, k: int)
    requires
        0 <= k <= s.len(),
    ensures
        encode_utf8(s).subrange(0, byte_offset(s, k) as int) == encode_utf8(s.take(k)),
        encode_utf8(s).subrange(byte_offset(s, k) as int, encode_utf8(s).len() as int) == encode_utf8(
            s.skip(k),
        ),
        byte_offset(s, k) <= encode_utf8(s).len(),
{
    assert(s =~= s.take(k) + s.skip(k));
    lemma_encode_concat(s.take(k), s.skip(k));
    assert(encode_utf8(s).subrange(0, byte_offset(s, k) as int) =~= encode_utf8(s.take(k)));
    assert(encode_utf8(s).subrange(byte_offset(s, k) as int, encode_utf8(s).len() as int)
        =~= encode_utf8(s.skip(k)));
}

/// The first character's bytes come off the front of the encoding.
proof fn lemma_pop_first(s: Seq<char>)
    requires
        s.len() > 0,
    ensures
        pop_first_scalar(encode_utf8(s)) == encode_utf8(s.drop_first()),
        vstd::utf8::length_of_first_scalar(encode_utf8(s)) == utf8_width(s[0]),
{
    vstd::utf8::encode_utf8_first_scalar(s);
    assert(pop_first_scalar(encode_utf8(s)) =~= encode_utf8(s.drop_first()));
}

/// The byte offset of every character position is a character boundary.
pub proof fn lemma_byte_offset_is_boundary(s: Seq<char>, k: int)
    requires
        0 <= k <= s.len(),
    ensures
        is_char_boundary(encode_utf8(s), byte_offset(s, k) as int),
    decreases k,
{
    broadcast use vstd::utf8::encode_utf8_valid_utf8;

    if k > 0 {
        let t = s.drop_first();
        lemma_byte_offset_is_boundary(t, k - 1);
        lemma_pop_first(s);
        assert(s.take(k) =~= seq![s[0]] + t.take(k - 1));
        lemma_encode_concat(seq![s[0]], t.take(k - 1));
        lemma_encode_one(s[0]);
        lemma_width_bounds(s[0]);
        lemma_byte_offset_split(s, k);
    }
}

/// Every character boundary of the encoding is the byte offset of a
/// character position.
pub proof fn lemma_boundary_is_byte_offset(s: Seq<char>, i: int)
    requires
        is_char_boundary(encode_utf8(s), i),
    ensures
        exists|k: int| 0 <= k <= s.len() && byte_offset(s, k) == i,
    decreases s.len(),
{
    broadcast use vstd::utf8::encode_utf8_valid_utf8;

    if i == 0 {
        assert(s.take(0) =~= Seq::<char>::empty());
        assert(byte_offset(s, 0) == 0);
    } else {
        let t = s.drop_first();
        if s.len() == 0 {
            assert(encode_utf8(s).len() == 0);
        } else {
            lemma_pop_first(s);
            let j = i - utf8_width(s[0]);
            lemma_boundary_is_byte_offset(t, j);
            let k = choose|k: int| 0 <= k <= t.len() && byte_offset(t, k) == j;
            assert(s.take(k + 1) =~= seq![s[0]] + t.take(k));
            lemma_encode_concat(seq![s[0]], t.take(k));
            lemma_encode_one(s[0]);
            assert(byte_offset(s, k + 1) == i);
        }
    }
}

/// Byte offsets grow with the position, so a byte offset names one position.
pub proof fn lemma_byte_offset_injective(s: Seq<char>, j: int, k: int)
    requires
        0 <= j < k <= s.len(),
    ensures
        byte_offset(s, j) < byte_offset(s, k),
    decreases k - j,
{
    lemma_byte_offset_step(s, k - 1);
    lemma_width_bounds(s[k - 1]);
    if j < k - 1 {
        lemma_byte_offset_injective(s, j, k - 1);
    }
}

/// The number of bytes in the UTF-8 encoding of `c`.
pub fn utf8_len(c: char) -> (r: usize)
    ensures
        r == utf8_width(c),
{
    proof {
        vstd::utf8::char_is_scalar(c);
    }
    let v = c as u32;
    if v <= 0x7F {
        1
    } else if v <= 0x7FF {
        2
    } else if v <= 0xFFFF {
        3
    } else {
        4
    }
}

/// The last character of the slice, if any.
fn last_char(s: &str) -> (r: Option<char>)
    ensures
        r == (if s@.len() == 0 {
            None
        } else {
            Some(s@.last())
        }),
{
    let v = chars_of(s);
    if v.len() == 0 {
        None
    } else {
        Some(v[v.len() - 1])
    }
}

/// Relies on `String::insert_str`: inserts `item` at byte offset `idx`, which
/// lies on a character boundary; it panics elsewhere, and where the string
/// would outgrow `isize::MAX` bytes.
#[verifier::external_body]
fn insert_str_at(s: &mut String, idx: usize, item: &str)
    requires
        is_char_boundary(encode_utf8(old(s)@), idx as int),
        encode_utf8(old(s)@).len() + encode_utf8(item@).len() <= isize::MAX,
    ensures
        final(s)@ == decode_utf8(encode_utf8(old(s)@).subrange(0, idx as int)) + item@ + decode_utf8(
            encode_utf8(old(s)@).subrange(idx as int, encode_utf8(old(s)@).len() as int),
        ),
{
    s.insert_str(idx, item)
}

/// Relies on `String::remove`: removes and returns the character that starts
/// at byte offset `idx`, which lies on a character boundary before the end; it
/// panics elsewhere.
#[verifier::external_body]
fn remove_char_at(s: &mut String, idx: usize) -> (r: char)
    requires
        is_char_boundary(encode_utf8(old(s)@), idx as int),
        idx < encode_utf8(old(s)@).len(),
    ensures
        r == decode_utf8(encode_utf8(old(s)@).subrange(idx as int, encode_utf8(old(s)@).len() as int))[0],
        final(s)@ == decode_utf8(encode_utf8(old(s)@).subrange(0, idx as int)) + decode_utf8(
            encode_utf8(old(s)@).subrange(idx as int, encode_utf8(old(s)@).len() as int),
        ).drop_first(),
{
    s.remove(idx)
}

/// What an editor is made from.
pub struct RichEditorProps {
    pub id: String,
    pub class: String,
    pub caret_index: usize,
    pub text: String,
}

/// An editor that draws its own caret: a text and a caret at a byte offset
/// into it.
pub struct RichEditor {
    pub id: String,
    pub class: String,
    pub caret_index: usize,
    pub text: String,
}

impl RichEditor {
    /// The caret lies on a character boundary of the text.
    pub open spec fn wf(self) -> bool {
        is_char_boundary(encode_utf8(self.text@), self.caret_index as int)
    }

    /// The caret's position in characters.
    pub open spec fn caret_pos(self) -> int {
        choose|k: int| 0 <= k <= self.text@.len() && byte_offset(self.text@, k) == self.caret_index
    }

    /// A well-formed caret stands at exactly one character position.
    pub proof fn lemma_caret_pos(self)
        requires
            self.wf(),
        ensures
            0 <= self.caret_pos() <= self.text@.len(),
            byte_offset(self.text@, self.caret_pos()) == self.caret_index,
            forall|k: int|
                0 <= k <= self.text@.len() && byte_offset(self.text@, k) == self.caret_index ==> k
                    == self.caret_pos(),
    {
        lemma_boundary_is_byte_offset(self.text@, self.caret_index as int);
        let p = self.caret_pos();
        assert forall|k: int|
            0 <= k <= self.text@.len() && byte_offset(self.text@, k) == self.caret_index implies k
                == p by {
            if k < p {
                lemma_byte_offset_injective(self.text@, k, p);
            } else if p < k {
                lemma_byte_offset_injective(self.text@, p, k);
            }
        }
    }

    /// The editor for the given properties.
    pub fn create(props: &RichEditorProps) -> (r: Self)
        ensures
            r.id@ == props.id@,
            r.class@ == props.class@,
            r.caret_index == props.caret_index,
            r.text@ == props.text@,
    {
        RichEditor {
            id: props.id.clone(),
            class: props.class.clone(),
            caret_index: props.caret_index,
            text: props.text.clone(),
        }
    }

    /// Takes on the given properties; the editor is then drawn again.
    pub fn changed(&mut self, props: &RichEditorProps) -> (r: bool)
        ensures
            r,
            final(self).id@ == props.id@,
            final(self).class@ == props.class@,
            final(self).caret_index == props.caret_index,
            final(self).text@ == props.text@,
    {
        *self = Self::create(props);
        true
    }

    /// Whether the caret lies on a character boundary of the text.
    pub fn caret_on_boundary(&self) -> (r: bool)
        ensures
            r == self.wf(),
    {
        self.text.as_str().is_char_boundary(self.caret_index)
    }

    /// The text before the caret.
    pub fn text_before_caret(&self) -> (r: &str)
        requires
            self.wf(),
        ensures
            r@ == self.text@.take(self.caret_pos()),
    {
        proof {
            self.lemma_caret_pos();
            let k = self.caret_pos();
            lemma_byte_offset_split(self.text@, k);
            vstd::utf8::encode_utf8_decode_utf8(self.text@.take(k));
        }
        let (before, _) = self.text.as_str().split_at(self.caret_index);
        proof {
            vstd::utf8::encode_utf8_decode_utf8(before@);
        }
        before
    }

    /// The text after the caret.
    pub fn text_after_caret(&self) -> (r: &str)
        requires
            self.wf(),
        ensures
            r@ == self.text@.skip(self.caret_pos()),
    {
        let ghost k = self.caret_pos();
        proof {
            self.lemma_caret_pos();
            lemma_byte_offset_split(self.text@, k);
            vstd::utf8::encode_utf8_decode_utf8(self.text@.skip(k));
        }
        let (_, after) = self.text.as_str().split_at(self.caret_index);
        proof {
            vstd::utf8::encode_utf8_decode_utf8(after@);
        }
        after
    }

    /// The byte width of the character before the caret, or 0 at the start.
    pub fn before_char_len(&self) -> (r: usize)
        requires
            self.wf(),
        ensures
            r == (if self.caret_pos() == 0 {
                0
            } else {
                utf8_width(self.text@[self.caret_pos() - 1])
            }),
    {
        let before = self.text_before_caret();
        proof {
            self.lemma_caret_pos();
        }
        match last_char(before) {
            Some(c) => utf8_len(c),
            None => 0,
        }
    }

    /// The byte width of the character after the caret, or 0 at the end.
    pub fn after_char_len(&self) -> (r: usize)
        requires
            self.wf(),
        ensures
            r == (if self.caret_pos() == self.text@.len() {
                0
            } else {
                utf8_width(self.text@[self.caret_pos()])
            }),
    {
        broadcast use vstd::string::group_string_axioms;

        let after = self.text_after_caret();
        proof {
            self.lemma_caret_pos();
        }
        let mut chars = after.chars();
        match chars.next() {
            Some(c) => utf8_len(c),
            None => 0,
        }
    }

    /// Types `item` at the caret and moves the caret past it.
    pub fn type_item(&mut self, item: &str)
        requires
            old(self).wf(),
            encode_utf8(old(self).text@).len() + encode_utf8(item@).len() <= isize::MAX,
        ensures
            final(self).wf(),
            final(self).text@ == old(self).text@.take(old(self).caret_pos()) + item@ + old(
                self,
            ).text@.skip(old(self).caret_pos()),
            final(self).caret_pos() == old(self).caret_pos() + item@.len(),
            final(self).id == old(self).id,
            final(self).class == old(self).class,
    {
        let ghost t = self.text@;
        let ghost k = self.caret_pos();
        proof {
            self.lemma_caret_pos();
            lemma_byte_offset_split(t, k);
            vstd::utf8::encode_utf8_decode_utf8(t.take(k));
            vstd::utf8::encode_utf8_decode_utf8(t.skip(k));
        }
        insert_str_at(&mut self.text, self.caret_index, item);
        let ghost old_caret = self.caret_index;
        self.caret_index = self.caret_index + item.len();
        proof {
            let nt = self.text@;
            assert(nt.take(k + item@.len()) =~= t.take(k) + item@);
            lemma_encode_concat(t.take(k), item@);
            assert(byte_offset(nt, k + item@.len()) == self.caret_index);
            lemma_byte_offset_is_boundary(nt, k + item@.len());
            self.lemma_caret_pos();
        }
    }

    /// Deletes the character before the caret, where there is one, and moves
    /// the caret back over it.
    pub fn delete_char_before_caret(&mut self) -> (r: bool)
        requires
            old(self).wf(),
        ensures
            final(self).wf(),
            r == (old(self).caret_pos() > 0),
            r ==> final(self).text@ == old(self).text@.take(old(self).caret_pos() - 1) + old(
                self,
            ).text@.skip(old(self).caret_pos()),
            r ==> final(self).caret_pos() == old(self).caret_pos() - 1,
            !r ==> final(self).text@ == old(self).text@ && final(self).caret_index == old(
                self,
            ).caret_index,
            final(self).id == old(self).id,
            final(self).class == old(self).class,
    {
        let ghost t = self.text@;
        let ghost k = self.caret_pos();
        proof {
            self.lemma_caret_pos();
            if k == 0 {
                assert(t.take(0) =~= Seq::<char>::empty());
            }
        }
        if self.caret_index > 0 {
            let w = self.before_char_len();
            proof {
                assert(k > 0) by {
                    if k == 0 {
                        assert(byte_offset(t, 0) == 0);
                    }
                }
                lemma_byte_offset_step(t, k - 1);
                lemma_byte_offset_split(t, k - 1);
                lemma_byte_offset_is_boundary(t, k - 1);
                vstd::utf8::encode_utf8_decode_utf8(t.take(k - 1));
                vstd::utf8::encode_utf8_decode_utf8(t.skip(k - 1));
                lemma_width_bounds(t[k - 1]);
            }
            self.caret_index = self.caret_index - w;
            remove_char_at(&mut self.text, self.caret_index);
            proof {
                let nt = self.text@;
                assert(t.skip(k - 1).drop_first() =~= t.skip(k));
                assert(nt.take(k - 1) =~= t.take(k - 1));
                assert(byte_offset(nt, k - 1) == self.caret_index);
                lemma_byte_offset_is_boundary(nt, k - 1);
                self.lemma_caret_pos();
            }
            true
        } else {
            false
        }
    }

    /// Moves the caret back over one character, where there is one.
    pub fn move_before(&mut self) -> (r: bool)
        requires
            old(self).wf(),
        ensures
            final(self).wf(),
            r == (old(self).caret_pos() > 0),
            final(self).text == old(self).text,
            r ==> final(self).caret_pos() == old(self).caret_pos() - 1,
            !r ==> final(self).caret_index == old(self).caret_index,
            final(self).id == old(self).id,
            final(self).class == old(self).class,
    {
        let ghost t = self.text@;
        let ghost k = self.caret_pos();
        proof {
            self.lemma_caret_pos();
            if k == 0 {
                assert(t.take(0) =~= Seq::<char>::empty());
            }
        }
        if self.caret_index == 0 {
            false
        } else {
            let w = self.before_char_len();
            proof {
                assert(k > 0) by {
                    if k == 0 {
                        assert(byte_offset(t, 0) == 0);
                    }
                }
                lemma_byte_offset_step(t, k - 1);
                lemma_byte_offset_is_boundary(t, k - 1);
            }
            self.caret_index = self.caret_index - w;
            proof {
                self.lemma_caret_pos();
            }
            true
        }
    }

    /// Moves the caret on over one character, where there is one.
    pub fn move_after(&mut self) -> (r: bool)
        requires
            old(self).wf(),
            encode_utf8(old(self).text@).len() <= usize::MAX,
        ensures
            final(self).wf(),
            r == (old(self).caret_pos() < old(self).text@.len()),
            final(self).text == old(self).text,
            r ==> final(self).caret_pos() == old(self).caret_pos() + 1,
            !r ==> final(self).caret_index == old(self).caret_index,
            final(self).id == old(self).id,
            final(self).class == old(self).class,
    {
        let ghost t = self.text@;
        let ghost k = self.caret_pos();
        proof {
            self.lemma_caret_pos();
        }
        if self.text_after_caret().is_empty() {
            false
        } else {
            let w = self.after_char_len();
            proof {
                lemma_byte_offset_step(t, k);
                lemma_byte_offset_split(t, k + 1);
                lemma_byte_offset_is_boundary(t, k + 1);
            }
            self.caret_index = self.caret_index + w;
            proof {
                self.lemma_caret_pos();
            }
            true
        }
    }
}

} // verus!
