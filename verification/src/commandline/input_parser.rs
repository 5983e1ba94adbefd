//! Splits one line of interactive input into word tokens. Whitespace
//! separates tokens; a token opened by a double quote runs to the next
//! double quote and may hold whitespace.

use vstd::prelude::*;

use crate::helper::text::{chars_of, is_whitespace_char, spec_is_whitespace, string_from_chars};

verus! {

/// The position of the first character at or after `i` that is not
/// whitespace; `chars.len()` if there is none.
pub open spec fn skip_ws(chars: Seq<char>, i: int) -> int
    decreases chars.len() - i,
    when 0 <= i <= chars.len()
{
    if i == chars.len() {
        i
    } else if !spec_is_whitespace(chars[i]) {
        i
    } else {
        skip_ws(chars, i + 1)
    }
}

/// The position of the first character at or after `i` that ends a token:
/// the closing quote of a quoted token, or whitespace otherwise;
/// `chars.len()` if the token runs to the end.
pub open spec fn token_end(chars: Seq<char>, i: int, quoted: bool) -> int
    decreases chars.len() - i,
    when 0 <= i <= chars.len()
{
    if i == chars.len() {
        i
    } else if (quoted && chars[i] == '"') || (!quoted && spec_is_whitespace(chars[i])) {
        i
    } else {
        token_end(chars, i + 1, quoted)
    }
}

pub proof fn lemma_skip_ws(chars: Seq<char>, i: int)
    requires
        0 <= i <= chars.len(),
    ensures
        i <= skip_ws(chars, i) <= chars.len(),
    decreases chars.len() - i,
{
    if i < chars.len() && spec_is_whitespace(chars[i]) {
        lemma_skip_ws(chars, i + 1);
    }
}

pub proof fn lemma_token_end(chars: Seq<char>, i: int, quoted: bool)
    requires
        0 <= i <= chars.len(),
    ensures
        i <= token_end(chars, i, quoted) <= chars.len(),
    decreases chars.len() - i,
{
    if i < chars.len() && !((quoted && chars[i] == '"') || (!quoted && spec_is_whitespace(
        chars[i],
    ))) {
        lemma_token_end(chars, i + 1, quoted);
    }
}

/// A cursor over one line of input, handing out its tokens in order.
pub struct InputParser {
    chars: Vec<char>,
    pos: usize,
}

impl InputParser {
    pub closed spec fn spec_chars(self) -> Seq<char> {
        self.chars@
    }

    pub closed spec fn spec_pos(self) -> int {
        self.pos as int
    }

    pub open spec fn wf(self) -> bool {
        0 <= self.spec_pos() <= self.spec_chars().len()
    }

    pub fn new(raw_string: String) -> (r: InputParser)
        ensures
            r.wf(),
            r.spec_chars() == raw_string@,
            r.spec_pos() == 0,
    {
        InputParser { chars: chars_of(raw_string.as_str()), pos: 0 }
    }

    /// What the next call to `next` returns, as a function of the cursor:
    /// `None` past the last token, else the characters from the first
    /// non-whitespace position (past an opening quote, if one stands
    /// there) up to the token's end.
    pub open spec fn spec_peek(self) -> Option<Seq<char>> {
        let chars = self.spec_chars();
        let start = skip_ws(chars, self.spec_pos());
        if start == chars.len() {
            None
        } else if chars[start] == '"' {
            Some(chars.subrange(start + 1, token_end(chars, start + 1, true)))
        } else {
            Some(chars.subrange(start, token_end(chars, start, false)))
        }
    }

    /// Where the cursor stands after a call to `next`: one past the
    /// token's terminator, or at the end when the token ran to the end.
    pub open spec fn spec_advance(self) -> int {
        let chars = self.spec_chars();
        let start = skip_ws(chars, self.spec_pos());
        if start == chars.len() {
            start
        } else {
            let from = if chars[start] == '"' {
                start + 1
            } else {
                start
            };
            let end = token_end(chars, from, chars[start] == '"');
            if end == chars.len() {
                end
            } else {
                end + 1
            }
        }
    }

    /// The next token, or `None` when only whitespace is left.
    pub fn next(&mut self) -> (r: Option<String>)
        requires
            old(self).wf(),
        ensures
            final(self).wf(),
            final(self).spec_chars() == old(self).spec_chars(),
            match r {
                Some(token) => old(self).spec_peek() == Some(token@) && final(self).spec_pos()
                    == old(self).spec_advance(),
                None => old(self).spec_peek() is None && final(self).spec_pos() == old(
                    self,
                ).spec_pos(),
            },
    {
        let ghost chars = self.chars@;
        let n = self.chars.len();
        let mut start: usize = self.pos;
        while start < n && is_whitespace_char(self.chars[start])
            invariant
                self.pos <= start <= n,
                n == chars.len(),
                self.chars@ == chars,
                skip_ws(chars, self.pos as int) == skip_ws(chars, start as int),
            decreases n - start,
        {
            start = start + 1;
        }
        proof {
            assert(skip_ws(chars, start as int) == start as int);
        }
        if start == n {
            return None;
        }
        let quoted = self.chars[start] == '"';
        let from: usize = if quoted {
            start + 1
        } else {
            start
        };
        let mut end: usize = from;
        while end < n && !((quoted && self.chars[end] == '"') || (!quoted && is_whitespace_char(
            self.chars[end],
        )))
            invariant
                from <= end <= n,
                n == chars.len(),
                self.chars@ == chars,
                quoted == (chars[skip_ws(chars, self.pos as int)] == '"'),
                from == if quoted {
                    skip_ws(chars, self.pos as int) + 1
                } else {
                    skip_ws(chars, self.pos as int)
                },
                token_end(chars, from as int, quoted) == token_end(chars, end as int, quoted),
            decreases n - end,
        {
            end = end + 1;
        }
        proof {
            assert(token_end(chars, end as int, quoted) == end as int);
        }
        let mut token_chars: Vec<char> = Vec::new();
        let mut i: usize = from;
        while i < end
            invariant
                from <= i <= end <= n,
                n == chars.len(),
                self.chars@ == chars,
                token_chars@ == chars.subrange(from as int, i as int),
            decreases end - i,
        {
            token_chars.push(self.chars[i]);
            i = i + 1;
            proof {
                assert(token_chars@ =~= chars.subrange(from as int, i as int));
            }
        }
        let token = string_from_chars(&token_chars);
        if end == n {
            self.pos = end;
        } else {
            self.pos = end + 1;
        }
        Some(token)
    }

    /// All remaining tokens, in order.
    pub fn collect_tokens(&mut self) -> (r: Vec<String>)
        requires
            old(self).wf(),
        ensures
            final(self).wf(),
    {
        let mut r: Vec<String> = Vec::new();
        loop
            invariant
                self.wf(),
            decreases self.spec_chars().len() - self.spec_pos(),
        {
            let ghost before = *self;
            match self.next() {
                Some(token) => {
                    r.push(token);
                    proof {
                        lemma_next_advances(before);
                    }
                },
                None => {
                    break ;
                },
            }
        }
        r
    }
}

/// When a token is returned, the cursor strictly advances, so handing out
/// all tokens terminates.
proof fn lemma_next_advances(p: InputParser)
    requires
        p.wf(),
        p.spec_peek() is Some,
    ensures
        p.spec_advance() > p.spec_pos(),
        p.spec_advance() <= p.spec_chars().len(),
{
    let chars = p.spec_chars();
    lemma_skip_ws(chars, p.spec_pos());
    let start = skip_ws(chars, p.spec_pos());
    if chars[start] == '"' {
        lemma_token_end(chars, start + 1, true);
    } else {
        lemma_token_end(chars, start, false);
    }
}

} // verus!
