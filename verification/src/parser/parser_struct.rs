//! The token types the tokenizer produces and the structural parser
//! consumes, and the matching relation used to check a token against a
//! pattern of expected tokens.

use vstd::prelude::*;

verus! {

/// The text of one token, stamped with where it came from: a 1-based line
/// number and the path of the document file holding the line.
#[derive(Debug)]
pub struct WisphaRawToken {
    pub content: String,
    pub line_number: usize,
    pub file_path: String,
}

impl Clone for WisphaRawToken {
    /// An equal token.
    fn clone(&self) -> (r: Self)
        ensures
            r == *self,
    {
        WisphaRawToken {
            content: self.content.clone(),
            line_number: self.line_number,
            file_path: self.file_path.clone(),
        }
    }
}

/// How a token may deviate from an expected pattern token and still match.
#[derive(Clone, Copy, PartialEq, Eq, Structural, Debug)]
pub enum WisphaExpectOption {
    IgnoreDepth,
    AllowLowerDepth,
    IgnoreContent,
}

/// One token: a bracketed header at some nesting depth, or a raw body line.
#[derive(Debug)]
pub enum WisphaToken {
    Header(WisphaRawToken, usize),
    Body(WisphaRawToken),
}

impl Clone for WisphaToken {
    /// An equal token.
    fn clone(&self) -> (r: Self)
        ensures
            r == *self,
    {
        match &self {
            WisphaToken::Header(raw_token, depth) => {
                WisphaToken::Header(raw_token.clone(), *depth)
            },
            WisphaToken::Body(raw_token) => { WisphaToken::Body(raw_token.clone()) },
        }
    }
}

impl WisphaToken {
    /// The matching relation: what `matches` returns for a token checked
    /// against a pattern token under the given options.
    ///
    /// Without `IgnoreDepth`, two headers match on depth alone: equal
    /// depth, or a depth at most the pattern's under `AllowLowerDepth`.
    /// With `IgnoreDepth`, and for bodies always, content decides unless
    /// `IgnoreContent` is given.
    pub open spec fn spec_matches(
        self,
        token: WisphaToken,
        options: Seq<WisphaExpectOption>,
    ) -> bool {
        match (self, token) {
            (WisphaToken::Header(self_raw, self_depth), WisphaToken::Header(raw, depth)) => {
                if !options.contains(WisphaExpectOption::IgnoreDepth) {
                    ||| (options.contains(WisphaExpectOption::AllowLowerDepth) && self_depth
                        <= depth)
                    ||| self_depth == depth
                } else {
                    options.contains(WisphaExpectOption::IgnoreContent) || self_raw.content@
                        == raw.content@
                }
            },
            (WisphaToken::Body(self_raw), WisphaToken::Body(raw)) => {
                options.contains(WisphaExpectOption::IgnoreContent) || self_raw.content@
                    == raw.content@
            },
            _ => false,
        }
    }

    pub fn matches(&self, token: &WisphaToken, options: Vec<WisphaExpectOption>) -> (r: bool)
        ensures
            r == self.spec_matches(*token, options@),
    {
        match (&self, token) {
            (WisphaToken::Header(self_raw_token, self_depth), WisphaToken::Header(
                raw_token,
                depth,
            )) => {
                if !contains_option(&options, WisphaExpectOption::IgnoreDepth) {
                    if contains_option(&options, WisphaExpectOption::AllowLowerDepth) && *self_depth
                        <= *depth {
                        return true;
                    } else if *self_depth == *depth {
                        return true;
                    }
                    return false;
                }
                if !contains_option(&options, WisphaExpectOption::IgnoreContent)
                    && !self_raw_token.content.eq(&raw_token.content) {
                    return false;
                }
                return true;
            },
            (WisphaToken::Body(self_raw_token), WisphaToken::Body(raw_token)) => {
                if !contains_option(&options, WisphaExpectOption::IgnoreContent)
                    && !self_raw_token.content.eq(&raw_token.content) {
                    return false;
                }
                return true;
            },
            _ => {
                return false;
            },
        }
    }

    /// The text of the token, header or body alike.
    pub fn raw_token(&self) -> (r: &WisphaRawToken)
        ensures
            *r == self.spec_raw_token(),
    {
        match &self {
            WisphaToken::Header(raw_token, _) => raw_token,
            WisphaToken::Body(raw_token) => raw_token,
        }
    }

    pub open spec fn spec_raw_token(self) -> WisphaRawToken {
        match self {
            WisphaToken::Header(raw_token, _) => raw_token,
            WisphaToken::Body(raw_token) => raw_token,
        }
    }

    /// The nesting depth, for headers.
    pub fn depth(&self) -> (r: Option<usize>)
        ensures
            r == self.spec_depth(),
    {
        match &self {
            WisphaToken::Header(_, depth) => Some(*depth),
            WisphaToken::Body(_) => None,
        }
    }

    pub open spec fn spec_depth(self) -> Option<usize> {
        match self {
            WisphaToken::Header(_, depth) => Some(depth),
            WisphaToken::Body(_) => None,
        }
    }

    /// A pattern token matching any header of the given depth.
    pub fn default_header_token_with_depth(depth: usize) -> (r: WisphaToken)
        ensures
            r is Header,
            r.spec_depth() == Some(depth),
            r.spec_raw_token().content@ == Seq::<char>::empty(),
            r.spec_raw_token().line_number == 0,
            r.spec_raw_token().file_path@ == Seq::<char>::empty(),
    {
        WisphaToken::Header(
            WisphaRawToken { content: String::new(), line_number: 0, file_path: String::new() },
            depth,
        )
    }

    /// A pattern token with the given header content, at depth 1.
    pub fn default_header_token_with_content(content: String) -> (r: WisphaToken)
        ensures
            r is Header,
            r.spec_depth() == Some(1usize),
            r.spec_raw_token().content == content,
            r.spec_raw_token().line_number == 0,
            r.spec_raw_token().file_path@ == Seq::<char>::empty(),
    {
        WisphaToken::Header(
            WisphaRawToken { content, line_number: 0, file_path: String::new() },
            1,
        )
    }

    /// A pattern token with the given header content and depth.
    pub fn default_header_token_with_content_and_depth(content: String, depth: usize) -> (r:
        WisphaToken)
        ensures
            r is Header,
            r.spec_depth() == Some(depth),
            r.spec_raw_token().content == content,
            r.spec_raw_token().line_number == 0,
            r.spec_raw_token().file_path@ == Seq::<char>::empty(),
    {
        WisphaToken::Header(
            WisphaRawToken { content, line_number: 0, file_path: String::new() },
            depth,
        )
    }

    /// A pattern token matching an empty body line.
    pub fn empty_body_token() -> (r: WisphaToken)
        ensures
            r is Body,
            r.spec_raw_token().content@ == Seq::<char>::empty(),
            r.spec_raw_token().line_number == 0,
            r.spec_raw_token().file_path@ == Seq::<char>::empty(),
    {
        WisphaToken::Body(
            WisphaRawToken { content: String::new(), line_number: 0, file_path: String::new() },
        )
    }
}

/// What equality between tokens means here: headers are interchangeable,
/// bodies agree on their content.
impl PartialEq for WisphaToken {
    fn eq(&self, other: &Self) -> (r: bool) {
        match (&self, other) {
            (WisphaToken::Header(_, _), WisphaToken::Header(_, _)) => {
                return true;
            },
            (WisphaToken::Body(self_raw_token), WisphaToken::Body(raw_token)) => {
                return self_raw_token.content.eq(&raw_token.content);
            },
            _ => {
                return false;
            },
        }
    }
}

impl vstd::std_specs::cmp::PartialEqSpecImpl for WisphaToken {
    open spec fn obeys_eq_spec() -> bool {
        true
    }

    open spec fn eq_spec(&self, other: &WisphaToken) -> bool {
        match (*self, *other) {
            (WisphaToken::Header(_, _), WisphaToken::Header(_, _)) => true,
            (WisphaToken::Body(self_raw), WisphaToken::Body(raw)) => self_raw.content@
                == raw.content@,
            _ => false,
        }
    }
}

impl Eq for WisphaToken {

}

/// Whether the vector holds the given option.
pub fn contains_option(options: &Vec<WisphaExpectOption>, o: WisphaExpectOption) -> (r: bool)
    ensures
        r == options@.contains(o),
{
    let n = options.len();
    let mut i: usize = 0;
    while i < n
        invariant
            i <= n,
            n == options@.len(),
            forall|j: int| 0 <= j < i ==> options@[j] != o,
        decreases n - i,
    {
        if options[i] == o {
            return true;
        }
        i = i + 1;
    }
    false
}

/// One grouped property: its header token and the body tokens that belong
/// to it, up to the next header at the same or a lower depth.
pub struct WisphaRawProperty {
    pub header: WisphaToken,
    pub body: Vec<WisphaToken>,
}

impl Clone for WisphaRawProperty {
    /// A property with equal header and body.
    fn clone(&self) -> (r: Self)
        ensures
            r.header == self.header,
            r.body@ == self.body@,
    {
        WisphaRawProperty { header: self.header.clone(), body: clone_tokens(&self.body) }
    }
}

/// Copies a token vector; the copy holds equal tokens.
pub fn clone_tokens(tokens: &Vec<WisphaToken>) -> (r: Vec<WisphaToken>)
    ensures
        r@ == tokens@,
{
    let n = tokens.len();
    let mut r: Vec<WisphaToken> = Vec::new();
    let mut i: usize = 0;
    while i < n
        invariant
            i <= n,
            n == tokens@.len(),
            r@ == tokens@.take(i as int),
        decreases n - i,
    {
        r.push(tokens[i].clone());
        i = i + 1;
        proof {
            assert(r@ =~= tokens@.take(i as int));
        }
    }
    proof {
        assert(tokens@.take(n as int) =~= tokens@);
    }
    r
}

} // verus!
