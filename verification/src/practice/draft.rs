//! The answer or proof line a student is typing: it never holds a control character and
//! never grows past a fixed number of bytes, whatever is typed or pasted into it.

use vstd::prelude::*;

use crate::text::{char_width, chars_of, push_char, string_of, utf8_len, utf8_width};

verus! {

/// The longest draft a student can type, in bytes of UTF-8.
pub const DRAFT_LIMIT: usize = 2048;

/// Unicode's control characters (general category Cc), which a draft never takes.
pub open spec fn is_control(c: char) -> bool {
    let u = c as u32;
    u <= 0x1F || (0x7F <= u && u <= 0x9F)
}

/// `char::is_control`.
pub fn control(c: char) -> (r: bool)
    ensures
        r == is_control(c),
{
    let u: u32 = c as u32;
    u <= 0x1F || (0x7F <= u && u <= 0x9F)
}

/// The draft after typing `c`: unchanged where `c` is a control character or would pass
/// the limit.
pub open spec fn typed(input: Seq<char>, c: char) -> Seq<char> {
    if is_control(c) || utf8_len(input) + utf8_width(c) > DRAFT_LIMIT {
        input
    } else {
        input.push(c)
    }
}

/// The draft after pasting `text`: control characters are dropped, and pasting stops at
/// the first character that would pass the limit.
pub open spec fn pasted(input: Seq<char>, text: Seq<char>) -> Seq<char>
    decreases text.len(),
{
    if text.len() == 0 {
        input
    } else if is_control(text[0]) {
        pasted(input, text.drop_first())
    } else if utf8_len(input) + utf8_width(text[0]) > DRAFT_LIMIT {
        input
    } else {
        pasted(input.push(text[0]), text.drop_first())
    }
}

/// The draft after a backspace: one character shorter, unless it is empty.
pub open spec fn backspaced(input: Seq<char>) -> Seq<char> {
    if input.len() == 0 {
        input
    } else {
        input.drop_last()
    }
}

/// A draft being typed, with its length in bytes kept beside it.
#[derive(Clone, Debug)]
pub struct Draft {
    text: String,
    bytes: usize,
}

impl View for Draft {
    type V = Seq<char>;

    closed spec fn view(&self) -> Seq<char> {
        self.text@
    }
}

impl Draft {
    /// The tracked length is the text's, and within the limit.
    pub closed spec fn wf(&self) -> bool {
        &&& self.bytes == utf8_len(self.text@)
        &&& self.bytes <= DRAFT_LIMIT
    }

    /// A well-formed draft is within the limit.
    pub proof fn lemma_within_limit(&self)
        requires
            self.wf(),
        ensures
            utf8_len(self@) <= DRAFT_LIMIT,
    {
    }

    /// An empty draft.
    pub fn new() -> (draft: Self)
        ensures
            draft.wf(),
            draft@ == Seq::<char>::empty(),
    {
        Draft { text: String::new(), bytes: 0 }
    }

    /// What has been typed.
    pub fn as_str(&self) -> (text: &str)
        ensures
            text@ == self@,
    {
        self.text.as_str()
    }

    /// Add one character. False, with the draft unchanged, when it is a control character
    /// or would pass the limit.
    pub fn type_character(&mut self, character: char) -> (typed_in: bool)
        requires
            old(self).wf(),
        ensures
            final(self).wf(),
            typed_in == !(is_control(character) || utf8_len(old(self)@) + utf8_width(character)
                > DRAFT_LIMIT),
            final(self)@ == typed(old(self)@, character),
    {
        let width: usize = char_width(character);
        if control(character) || self.bytes + width > DRAFT_LIMIT {
            return false;
        }
        proof {
            crate::text::lemma_utf8_len_push(self.text@, character);
        }
        push_char(&mut self.text, character);
        self.bytes = self.bytes + width;
        true
    }

    /// Insert pasted text, dropping control characters and stopping at the limit.
    pub fn paste(&mut self, text: &str)
        requires
            old(self).wf(),
        ensures
            final(self).wf(),
            final(self)@ == pasted(old(self)@, text@),
    {
        let chars: Vec<char> = chars_of(text);
        let ghost start = self@;
        let mut i: usize = 0;
        assert(text@.skip(0) =~= text@);
        while i < chars.len()
            invariant
                i <= chars.len(),
                chars@ == text@,
                start == old(self)@,
                self.wf(),
                pasted(start, text@) == pasted(self@, text@.skip(i as int)),
            decreases chars.len() - i,
        {
            let c: char = chars[i];
            proof {
                assert(text@.skip(i as int)[0] == c);
                assert(text@.skip(i as int).drop_first() =~= text@.skip(i + 1));
            }
            if !control(c) {
                let ghost held = self@;
                if !self.type_character(c) {
                    proof {
                        let rest = text@.skip(i as int);
                        assert(rest.len() > 0);
                        assert(!is_control(rest[0]));
                        assert(utf8_len(held) + utf8_width(rest[0]) > DRAFT_LIMIT);
                        assert(pasted(held, rest) == held);
                    }
                    return;
                }
            }
            i += 1;
        }
        assert(text@.skip(chars.len() as int) =~= Seq::<char>::empty());
    }

    /// Delete the last character, if there is one.
    pub fn backspace(&mut self)
        requires
            old(self).wf(),
        ensures
            final(self).wf(),
            final(self)@ == backspaced(old(self)@),
    {
        let mut chars: Vec<char> = chars_of(self.text.as_str());
        if chars.len() == 0 {
            return;
        }
        let ghost before = chars@;
        let last: char = chars.pop().unwrap();
        proof {
            assert(before.drop_last() =~= chars@);
            assert(before =~= chars@.push(last));
            crate::text::lemma_utf8_len_push(chars@, last);
        }
        self.text = string_of(&chars);
        self.bytes = self.bytes - char_width(last);
    }

    /// Empty the draft.
    pub fn clear(&mut self)
        ensures
            final(self).wf(),
            final(self)@ == Seq::<char>::empty(),
    {
        self.text = String::new();
        self.bytes = 0;
    }
}

/// Whatever is typed into a draft within the limit, it stays within the limit, and a
/// control character leaves it as it was.
pub proof fn law_draft_stays_within_limit(input: Seq<char>, c: char)
    requires
        utf8_len(input) <= DRAFT_LIMIT,
    ensures
        utf8_len(typed(input, c)) <= DRAFT_LIMIT,
        is_control(c) ==> typed(input, c) == input,
{
    crate::text::lemma_utf8_len_push(input, c);
}

} // verus!
