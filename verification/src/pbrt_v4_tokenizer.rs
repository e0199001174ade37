//! The tokenizer of the textual scene format: it cuts a text into words,
//! quoted strings and brackets, and skips blanks and comments.
//!
//! A comment runs from `#` to the end of its line. `[` and `]` are tokens of
//! their own where a token starts. A quoted string runs to the next quote
//! and is handed out without the quotes. Any other token is a word: it runs
//! up to the next space, tab, line feed or `]`. A word or a string that the
//! end of the text cuts off is no token.

use vstd::prelude::*;
use vstd::string::StringSliceAdditionalSpecFns;

verus! {

pub const SPACE: u8 = 0x20;

pub const TAB: u8 = 0x09;

pub const LINE_FEED: u8 = 0x0a;

pub const CARRIAGE_RETURN: u8 = 0x0d;

pub const HASH: u8 = 0x23;

pub const QUOTE: u8 = 0x22;

pub const OPEN_BRACKET: u8 = 0x5b;

pub const CLOSE_BRACKET: u8 = 0x5d;

/// Blanks separate tokens.
pub open spec fn is_blank(b: u8) -> bool {
    b == SPACE || b == LINE_FEED || b == TAB || b == CARRIAGE_RETURN
}

/// The bytes that end a word.
pub open spec fn ends_word(b: u8) -> bool {
    b == SPACE || b == CLOSE_BRACKET || b == LINE_FEED || b == TAB
}

/// Where the next token starts at or after `i`: the first byte that is
/// neither blank nor part of a comment. The length of the text if there is
/// none.
pub open spec fn skip_blanks(text: Seq<u8>, i: int, in_comment: bool) -> int
    decreases text.len() - i,
{
    if i < 0 || i >= text.len() {
        text.len() as int
    } else if in_comment {
        skip_blanks(text, i + 1, text[i] != LINE_FEED)
    } else if text[i] == HASH {
        skip_blanks(text, i + 1, true)
    } else if text[i] == OPEN_BRACKET || text[i] == CLOSE_BRACKET {
        i
    } else if is_blank(text[i]) {
        skip_blanks(text, i + 1, false)
    } else {
        i
    }
}

/// The first place at or after `i` where a quote stands, or the length of
/// the text.
pub open spec fn next_quote(text: Seq<u8>, i: int) -> int
    decreases text.len() - i,
{
    if i < 0 || i >= text.len() {
        text.len() as int
    } else if text[i] == QUOTE {
        i
    } else {
        next_quote(text, i + 1)
    }
}

/// The first place at or after `i` where a word ends, or the length of the
/// text.
pub open spec fn word_end(text: Seq<u8>, i: int) -> int
    decreases text.len() - i,
{
    if i < 0 || i >= text.len() {
        text.len() as int
    } else if ends_word(text[i]) {
        i
    } else {
        word_end(text, i + 1)
    }
}

/// Where the first token of the text starts and where it ends: for a quoted
/// string the places of its two quotes. Two equal places where there is no
/// token.
pub open spec fn first_token(text: Seq<u8>) -> (int, int) {
    let start = skip_blanks(text, 0, false);
    if start >= text.len() {
        (0, 0)
    } else if text[start] == OPEN_BRACKET || text[start] == CLOSE_BRACKET {
        (start, start + 1)
    } else {
        let end = if text[start] == QUOTE {
            next_quote(text, start + 1)
        } else {
            word_end(text, start + 1)
        };
        if end < text.len() {
            (start, end)
        } else {
            (start, start)
        }
    }
}

/// Finds the first token of `text`.
pub fn find_offsets(text: &[u8]) -> (offsets: (usize, usize))
    ensures
        offsets.0 == first_token(text@).0,
        offsets.1 == first_token(text@).1,
        offsets.0 <= offsets.1 <= text@.len(),
        offsets.0 < offsets.1 ==> offsets.1 < text@.len() || offsets.1 == offsets.0 + 1,
{
    let len = text.len();
    let mut i: usize = 0;
    let mut in_comment = false;
    while i < len
        invariant
            i <= len == text@.len(),
            skip_blanks(text@, 0, false) == skip_blanks(text@, i as int, in_comment),
        ensures
            i <= len,
            i == skip_blanks(text@, 0, false),
        decreases len - i,
    {
        let c = text[i];
        if in_comment {
            in_comment = c != LINE_FEED;
        } else if c == HASH {
            in_comment = true;
        } else if c == OPEN_BRACKET || c == CLOSE_BRACKET {
            break ;
        } else if !(c == SPACE || c == LINE_FEED || c == TAB || c == CARRIAGE_RETURN) {
            break ;
        }
        i += 1;
    }
    if i >= len {
        return (0, 0);
    }
    let start = i;
    let first = text[start];
    if first == OPEN_BRACKET || first == CLOSE_BRACKET {
        return (start, start + 1);
    }
    let quoted = first == QUOTE;
    let mut end: usize = start + 1;
    while end < len
        invariant
            start < end <= len == text@.len(),
            quoted ==> next_quote(text@, start + 1) == next_quote(text@, end as int),
            !quoted ==> word_end(text@, start + 1) == word_end(text@, end as int),
        ensures
            start < end <= len,
            quoted ==> end == next_quote(text@, start + 1),
            !quoted ==> end == word_end(text@, start + 1),
        decreases len - end,
    {
        let c = text[end];
        if quoted {
            if c == QUOTE {
                break ;
            }
        } else if c == SPACE || c == CLOSE_BRACKET || c == LINE_FEED || c == TAB {
            break ;
        }
        end += 1;
    }
    if end < len {
        (start, end)
    } else {
        (start, start)
    }
}

/// A text that is handed out token by token.
pub struct PBRTTokenizer<'a> {
    text: &'a [u8],
}

/// The first token of the text, without its quotes if it is a quoted string.
/// `None` where the text holds no token.
pub open spec fn token_of(text: Seq<u8>) -> Option<Seq<u8>> {
    let (start, end) = first_token(text);
    if end <= start {
        None
    } else if text[start] == QUOTE {
        Some(text.subrange(start + 1, end))
    } else {
        Some(text.subrange(start, end))
    }
}

/// What is left of the text after its first token: for a quoted string what
/// follows the closing quote. The whole text where it holds no token.
pub open spec fn after_token(text: Seq<u8>) -> Seq<u8> {
    let (start, end) = first_token(text);
    if end <= start {
        text
    } else if text[start] == QUOTE {
        text.subrange(end + 1, text.len() as int)
    } else {
        text.subrange(end, text.len() as int)
    }
}

impl<'a> PBRTTokenizer<'a> {
    /// The text that is still to be cut.
    pub closed spec fn rest(&self) -> Seq<u8> {
        self.text@
    }

    pub fn new(text: &'a str) -> (tokenizer: Self)
        ensures
            tokenizer.rest() == text.spec_bytes(),
    {
        PBRTTokenizer { text: text.as_bytes() }
    }

    /// Hands out the next token and keeps what follows it.
    pub fn next(&mut self) -> (token: Option<&'a [u8]>)
        ensures
            match token {
                Some(bytes) => token_of(old(self).rest()) == Some(bytes@),
                None => token_of(old(self).rest()).is_none(),
            },
            final(self).rest() == after_token(old(self).rest()),
    {
        let text = self.text;
        let (start, end) = find_offsets(text);
        if end > start {
            if text[start] == QUOTE {
                let token = &text[start + 1..end];
                self.text = &text[end + 1..text.len()];
                Some(token)
            } else {
                let token = &text[start..end];
                self.text = &text[end..text.len()];
                Some(token)
            }
        } else {
            None
        }
    }
}

} // verus!
