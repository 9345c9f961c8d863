//! The attribute model: per-field textual directives, normalized into a
//! byte order and an optional padding directive.
//!
//! A field may carry any number of directives. Among the byte-order markers
//! the last seen wins; a padding marker carries an optional parenthesized
//! token group that must spell `bytes = <integer>`. Any other token shape
//! is a generation-time configuration error that names the expected token
//! and the kind of token actually found — it never silently defaults.

use crate::model::{ByteOrder, Padding};
use vstd::prelude::*;

verus! {

/// One token inside a padding directive's parenthesized group.
#[derive(Clone, Debug, PartialEq, Eq)]
pub enum PadToken {
    /// An identifier, such as the expected keyword `bytes`.
    Ident(String),
    /// A punctuation character, such as the expected `=`.
    Punct(char),
    /// An integer literal, already parsed to its value.
    Int(usize),
    /// Any other token shape, such as a non-integer literal.
    Other,
}

/// The shape of a token, used to report what was found where another token
/// was expected.
#[derive(Clone, Copy, Debug, PartialEq, Eq)]
pub enum TokenKind {
    Ident,
    Punct,
    Int,
    Other,
}

/// One directive attached to a field, by its path segment: a byte-order
/// marker, a padding marker with its optional argument tokens, or an
/// unrelated segment that is ignored.
#[derive(Clone, Debug, PartialEq, Eq)]
pub enum Directive {
    Little,
    Big,
    Native,
    Pad(Option<Vec<PadToken>>),
    Other,
}

/// A fatal configuration error, raised while a record description is
/// built and never deferred to run time.
#[derive(Clone, Copy, Debug, PartialEq, Eq)]
pub enum GenError {
    /// The record declares positional fields without names.
    UnnamedField,
    /// A padding argument group did not start with the keyword `bytes`.
    PadExpectedIdent { found: Option<TokenKind> },
    /// The `bytes` keyword was not followed by `=`.
    PadExpectedPunct { found: Option<TokenKind> },
    /// The `=` was not followed by an integer literal.
    PadExpectedInt { found: Option<TokenKind> },
    /// An array length was neither an integer literal nor a usable
    /// constant expression.
    BadArrayLen,
    /// A byte-order directive stood on a field whose element type is a
    /// nested record, which only its own composite codec can handle.
    OrderOnComposite,
}

/// The normalized attribute set of one field.
#[derive(Clone, Copy, Debug, PartialEq, Eq)]
pub struct Attributes {
    pub order: ByteOrder,
    pub padding: Option<Padding>,
}

impl Default for ByteOrder {
    /// A field with no byte-order directive uses the element type's own
    /// codec.
    fn default() -> (o: ByteOrder)
        ensures
            o == ByteOrder::Normal,
    {
        ByteOrder::Normal
    }
}

impl Default for Padding {
    /// A padding directive without arguments sizes its filler
    /// automatically.
    fn default() -> (p: Padding)
        ensures
            p == Padding::Auto,
    {
        Padding::Auto
    }
}

impl Default for Attributes {
    fn default() -> (a: Attributes)
        ensures
            a == (Attributes { order: ByteOrder::Normal, padding: None }),
    {
        Attributes { order: ByteOrder::Normal, padding: None }
    }
}

/// The shape of one token.
pub open spec fn kind_of(t: PadToken) -> TokenKind {
    match t {
        PadToken::Ident(_) => TokenKind::Ident,
        PadToken::Punct(_) => TokenKind::Punct,
        PadToken::Int(_) => TokenKind::Int,
        PadToken::Other => TokenKind::Other,
    }
}

/// The shape of the token at `i`, if the group has one there.
pub open spec fn kind_at(ts: Seq<PadToken>, i: int) -> Option<TokenKind> {
    if 0 <= i < ts.len() {
        Some(kind_of(ts[i]))
    } else {
        None
    }
}

/// What a padding directive's argument group denotes: `bytes = <n>` gives
/// an explicit byte count, and each of the three checkpoints reports the
/// expected token and the kind found when it does not match.
pub open spec fn spec_parse_pad_args(ts: Seq<PadToken>) -> Result<Padding, GenError> {
    if !(ts.len() > 0 && (ts[0] matches PadToken::Ident(s) && s@ == "bytes"@)) {
        Err(GenError::PadExpectedIdent { found: kind_at(ts, 0) })
    } else if !(ts.len() > 1 && (ts[1] matches PadToken::Punct(c) && c == '=')) {
        Err(GenError::PadExpectedPunct { found: kind_at(ts, 1) })
    } else if !(ts.len() > 2 && ts[2] is Int) {
        Err(GenError::PadExpectedInt { found: kind_at(ts, 2) })
    } else {
        match ts[2] {
            PadToken::Int(n) => Ok(Padding::Explicit(n)),
            _ => Err(GenError::PadExpectedInt { found: kind_at(ts, 2) }),
        }
    }
}

/// What a padding directive denotes: no argument group means automatic
/// sizing; a group must spell `bytes = <integer>`.
pub open spec fn spec_parse_padding(args: Option<Seq<PadToken>>) -> Result<Padding, GenError> {
    match args {
        None => Ok(Padding::Auto),
        Some(ts) => spec_parse_pad_args(ts),
    }
}

/// The shape of one token, as a runtime value.
pub fn token_kind(t: &PadToken) -> (k: TokenKind)
    ensures
        k == kind_of(*t),
{
    match t {
        PadToken::Ident(_) => TokenKind::Ident,
        PadToken::Punct(_) => TokenKind::Punct,
        PadToken::Int(_) => TokenKind::Int,
        PadToken::Other => TokenKind::Other,
    }
}

/// The shape of the token at `i`, as a runtime value.
fn token_kind_at(ts: &Vec<PadToken>, i: usize) -> (k: Option<TokenKind>)
    ensures
        k == kind_at(ts@, i as int),
{
    if i < ts.len() {
        Some(token_kind(&ts[i]))
    } else {
        None
    }
}

/// Parses a padding directive's optional argument group.
pub fn parse_padding(args: &Option<Vec<PadToken>>) -> (res: Result<Padding, GenError>)
    ensures
        args is None ==> res == spec_parse_padding(None),
        args matches Some(ts) ==> res == spec_parse_pad_args(ts@),
{
    let ts = match args {
        None => {
            return Ok(Padding::Auto);
        },
        Some(ts) => ts,
    };
    let keyword: String = "bytes".to_owned();
    let ok0 = if ts.len() > 0 {
        match &ts[0] {
            PadToken::Ident(s) => *s == keyword,
            _ => false,
        }
    } else {
        false
    };
    if !ok0 {
        return Err(GenError::PadExpectedIdent { found: token_kind_at(ts, 0) });
    }
    let ok1 = if ts.len() > 1 {
        match &ts[1] {
            PadToken::Punct(c) => *c == '=',
            _ => false,
        }
    } else {
        false
    };
    if !ok1 {
        return Err(GenError::PadExpectedPunct { found: token_kind_at(ts, 1) });
    }
    if ts.len() > 2 {
        match &ts[2] {
            PadToken::Int(n) => Ok(Padding::Explicit(*n)),
            _ => Err(GenError::PadExpectedInt { found: token_kind_at(ts, 2) }),
        }
    } else {
        Err(GenError::PadExpectedInt { found: token_kind_at(ts, 2) })
    }
}

/// What a directive list resolves to, starting from `acc`: the last-seen
/// byte-order marker wins, each padding marker is parsed where it stands
/// and the last parsed one wins, and the first malformed padding group
/// aborts with its error.
pub open spec fn spec_resolve_attrs(ds: Seq<Directive>, acc: Attributes) -> Result<
    Attributes,
    GenError,
>
    decreases ds.len(),
{
    if ds.len() == 0 {
        Ok(acc)
    } else {
        match ds[0] {
            Directive::Little => spec_resolve_attrs(
                ds.drop_first(),
                Attributes { order: ByteOrder::Little, padding: acc.padding },
            ),
            Directive::Big => spec_resolve_attrs(
                ds.drop_first(),
                Attributes { order: ByteOrder::Big, padding: acc.padding },
            ),
            Directive::Native => spec_resolve_attrs(
                ds.drop_first(),
                Attributes { order: ByteOrder::Native, padding: acc.padding },
            ),
            Directive::Pad(args) => match spec_parse_padding(
                match args {
                    None => None,
                    Some(v) => Some(v@),
                },
            ) {
                Ok(p) => spec_resolve_attrs(
                    ds.drop_first(),
                    Attributes { order: acc.order, padding: Some(p) },
                ),
                Err(e) => Err(e),
            },
            Directive::Other => spec_resolve_attrs(ds.drop_first(), acc),
        }
    }
}

impl Attributes {
    /// Resolves a field's directives into its byte order and padding.
    pub fn resolve(ds: &Vec<Directive>) -> (res: Result<Attributes, GenError>)
        ensures
            res == spec_resolve_attrs(
                ds@,
                (Attributes { order: ByteOrder::Normal, padding: None }),
            ),
    {
        let mut acc = Attributes::default();
        let ghost init = acc;
        proof {
            assert(ds@.skip(0) =~= ds@);
        }
        let mut i: usize = 0;
        while i < ds.len()
            invariant
                i <= ds@.len(),
                init == (Attributes { order: ByteOrder::Normal, padding: None }),
                spec_resolve_attrs(ds@, init) == spec_resolve_attrs(ds@.skip(i as int), acc),
            decreases ds@.len() - i,
        {
            proof {
                assert(ds@.skip(i as int)[0] == ds@[i as int]);
                assert(ds@.skip(i as int).drop_first() =~= ds@.skip(i + 1));
            }
            match &ds[i] {
                Directive::Little => {
                    acc.order = ByteOrder::Little;
                },
                Directive::Big => {
                    acc.order = ByteOrder::Big;
                },
                Directive::Native => {
                    acc.order = ByteOrder::Native;
                },
                Directive::Pad(args) => match parse_padding(args) {
                    Ok(p) => {
                        acc.padding = Some(p);
                    },
                    Err(e) => {
                        return Err(e);
                    },
                },
                Directive::Other => {},
            }
            i = i + 1;
        }
        proof {
            assert(ds@.skip(ds@.len() as int) =~= Seq::<Directive>::empty());
        }
        Ok(acc)
    }
}

} // verus!
