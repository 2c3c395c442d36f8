//! The `#[nocturne(..)]` attributes of contract items.
use crate::error::{ErrorCode, ErrorV, MidnightError, MidnightResult};
use crate::syntax::{AttrArgs, AttrToken, Attribute, Ident, Span};
use crate::text::{cat3, same, txt};
use vstd::prelude::*;

verus! {

/// Classification of item-level attributes.
#[derive(Debug, Clone, Copy, PartialEq, Eq, Structural)]
pub enum MidnightAttr {
    Ledger,
    Witnesses,
    Circuit,
    Constructor,
    Query,
    Event,
    /// A ledger field that is internal; fields are exported by default.
    Private,
}

/// The kind that an attribute argument names.
pub open spec fn attr_kind(s: Seq<char>) -> Option<MidnightAttr> {
    if s == "ledger"@ {
        Some(MidnightAttr::Ledger)
    } else if s == "witnesses"@ {
        Some(MidnightAttr::Witnesses)
    } else if s == "circuit"@ {
        Some(MidnightAttr::Circuit)
    } else if s == "constructor"@ {
        Some(MidnightAttr::Constructor)
    } else if s == "query"@ {
        Some(MidnightAttr::Query)
    } else if s == "event"@ {
        Some(MidnightAttr::Event)
    } else if s == "private"@ {
        Some(MidnightAttr::Private)
    } else {
        None
    }
}

/// Whether an attribute is one of the compiler's own.
pub open spec fn is_ours(a: Attribute) -> bool {
    match a.path {
        Some(p) => p@ == "nocturne"@ || p@ == "midnight"@,
        None => false,
    }
}

pub open spec fn token_span(t: AttrToken) -> Span {
    match t {
        AttrToken::Ident(i) => i.span,
        AttrToken::Keyword(i) => i.span,
        AttrToken::Comma(s) => s,
        AttrToken::Other(s) => s,
    }
}

/// The one identifier of an argument list, with an optional comma behind it;
/// otherwise where and why the list is malformed.
pub open spec fn sole_ident(tokens: Seq<AttrToken>, close: Span) -> Result<Ident, (Span, Seq<char>)> {
    if tokens.len() == 0 {
        Err((close, "unexpected end of input, expected identifier"@))
    } else {
        match tokens[0] {
            AttrToken::Ident(i) => {
                let next: int = if tokens.len() > 1 && tokens[1] is Comma { 2 } else { 1 };
                if next < tokens.len() {
                    Err((token_span(tokens[next]), "expected a single attribute argument"@))
                } else {
                    Ok(i)
                }
            }
            AttrToken::Keyword(i) => Err((i.span, "expected identifier, found keyword `"@ + i.name@ + "`"@)),
            t => Err((token_span(t), "expected identifier"@)),
        }
    }
}

pub open spec fn attr_error(span: Span, message: Seq<char>) -> ErrorV {
    ErrorV { span, code: ErrorCode::InvalidAttribute, message }
}

/// The kind of an attribute: none for a foreign attribute, an error for one of
/// ours with malformed or unknown contents.
pub open spec fn attribute_kind(a: Attribute) -> Result<Option<MidnightAttr>, ErrorV> {
    if !is_ours(a) {
        Ok(None)
    } else {
        match a.args {
            AttrArgs::List { tokens, close } => match sole_ident(tokens@, close) {
                Ok(i) => match attr_kind(i.name@) {
                    Some(kind) => Ok(Some(kind)),
                    None => Err(
                        attr_error(
                            i.span,
                            "unknown nocturne attribute `"@ + i.name@
                                + "`, expected one of: ledger, witnesses, circuit, constructor, query, event, private"@,
                        ),
                    ),
                },
                Err((span, why)) => Err(
                    attr_error(
                        span,
                        "malformed #[nocturne(...)] attribute ("@ + why
                            + "); expected one of: ledger, witnesses, circuit, constructor, query, event, private"@,
                    ),
                ),
            },
            AttrArgs::Bare => Err(
                attr_error(
                    a.meta_span,
                    "the nocturne attribute takes exactly one argument: #[nocturne(<kind>)] with <kind> one of: ledger, witnesses, circuit, constructor, query, event, private"@,
                ),
            ),
        }
    }
}

/// The kind and position of the one attribute of ours among the first `n`.
pub open spec fn found_attr(attrs: Seq<Attribute>, n: nat) -> Result<Option<(MidnightAttr, Span)>, ErrorV>
    decreases n,
{
    if n == 0 || n > attrs.len() {
        Ok(None)
    } else {
        match found_attr(attrs, (n - 1) as nat) {
            Err(x) => Err(x),
            Ok(before) => match attribute_kind(attrs[n - 1]) {
                Err(x) => Err(x),
                Ok(None) => Ok(before),
                Ok(Some(kind)) => if before is Some {
                    Err(
                        attr_error(
                            attrs[n - 1].span,
                            "duplicate #[nocturne(...)] attribute on the same item; an item takes exactly one nocturne attribute"@,
                        ),
                    )
                } else {
                    Ok(Some((kind, attrs[n - 1].span)))
                },
            },
        }
    }
}

pub open spec fn res_view<T>(r: Result<T, MidnightError>) -> Result<T, ErrorV> {
    match r {
        Ok(v) => Ok(v),
        Err(e) => Err(e@),
    }
}

fn span_of_token(t: &AttrToken) -> (r: Span)
    ensures
        r == token_span(*t),
{
    match t {
        AttrToken::Ident(i) => i.span,
        AttrToken::Keyword(i) => i.span,
        AttrToken::Comma(s) => *s,
        AttrToken::Other(s) => *s,
    }
}

fn parse_sole_ident(tokens: &Vec<AttrToken>, close: Span) -> (r: Result<&Ident, (Span, String)>)
    ensures
        match r {
            Ok(i) => sole_ident(tokens@, close) == Ok::<Ident, (Span, Seq<char>)>(*i),
            Err((s, why)) => sole_ident(tokens@, close) == Err::<Ident, (Span, Seq<char>)>((s, why@)),
        },
{
    if tokens.len() == 0 {
        return Err((close, txt("unexpected end of input, expected identifier")));
    }
    match &tokens[0] {
        AttrToken::Ident(i) => {
            let mut next: usize = 1;
            if tokens.len() > 1 {
                match &tokens[1] {
                    AttrToken::Comma(_) => {
                        next = 2;
                    }
                    _ => {}
                }
            }
            if next < tokens.len() {
                Err((span_of_token(&tokens[next]), txt("expected a single attribute argument")))
            } else {
                Ok(i)
            }
        }
        AttrToken::Keyword(i) => Err(
            (i.span, cat3("expected identifier, found keyword `", i.name.as_str(), "`")),
        ),
        t => Err((span_of_token(t), txt("expected identifier"))),
    }
}

impl MidnightAttr {
    /// The kind of an attribute. `Ok(None)` means that it is none of ours; one
    /// of ours with malformed or unknown contents is an error.
    pub fn from_attribute(attr: &Attribute) -> (r: MidnightResult<Option<Self>>)
        ensures
            res_view(r) == attribute_kind(*attr),
    {
        if !is_midnight_attr(attr) {
            return Ok(None);
        }
        match &attr.args {
            AttrArgs::List { tokens, close } => match parse_sole_ident(tokens, *close) {
                Ok(i) => match MidnightAttr::from_str(i.name.as_str()) {
                    Some(kind) => Ok(Some(kind)),
                    None => Err(
                        MidnightError::new(
                            i.span,
                            ErrorCode::InvalidAttribute,
                            cat3(
                                "unknown nocturne attribute `",
                                i.name.as_str(),
                                "`, expected one of: ledger, witnesses, circuit, constructor, query, event, private",
                            ),
                        ),
                    ),
                },
                Err((span, why)) => Err(
                    MidnightError::new(
                        span,
                        ErrorCode::InvalidAttribute,
                        cat3(
                            "malformed #[nocturne(...)] attribute (",
                            why.as_str(),
                            "); expected one of: ledger, witnesses, circuit, constructor, query, event, private",
                        ),
                    ),
                ),
            },
            AttrArgs::Bare => Err(
                MidnightError::new(
                    attr.meta_span,
                    ErrorCode::InvalidAttribute,
                    txt(
                        "the nocturne attribute takes exactly one argument: #[nocturne(<kind>)] with <kind> one of: ledger, witnesses, circuit, constructor, query, event, private",
                    ),
                ),
            ),
        }
    }

    fn from_str(s: &str) -> (r: Option<Self>)
        ensures
            r == attr_kind(s@),
    {
        if same(s, "ledger") {
            Some(MidnightAttr::Ledger)
        } else if same(s, "witnesses") {
            Some(MidnightAttr::Witnesses)
        } else if same(s, "circuit") {
            Some(MidnightAttr::Circuit)
        } else if same(s, "constructor") {
            Some(MidnightAttr::Constructor)
        } else if same(s, "query") {
            Some(MidnightAttr::Query)
        } else if same(s, "event") {
            Some(MidnightAttr::Event)
        } else if same(s, "private") {
            Some(MidnightAttr::Private)
        } else {
            None
        }
    }
}

fn is_midnight_attr(attr: &Attribute) -> (r: bool)
    ensures
        r == is_ours(*attr),
{
    match &attr.path {
        Some(p) => same(p.as_str(), "nocturne") || same(p.as_str(), "midnight"),
        None => false,
    }
}

proof fn lemma_found_stop(attrs: Seq<Attribute>, a: nat, b: nat)
    requires
        a <= b <= attrs.len(),
        found_attr(attrs, a) is Err,
    ensures
        found_attr(attrs, b) == found_attr(attrs, a),
    decreases b,
{
    if a < b {
        lemma_found_stop(attrs, a, (b - 1) as nat);
    }
}

/// The attribute of ours on an item, with its position. More than one on the
/// same item is an error.
pub fn find_midnight_attr(attrs: &Vec<Attribute>) -> (r: MidnightResult<Option<(MidnightAttr, Span)>>)
    ensures
        res_view(r) == found_attr(attrs@, attrs@.len()),
{
    let mut found: Option<(MidnightAttr, Span)> = None;
    let mut i: usize = 0;
    while i < attrs.len()
        invariant
            i <= attrs@.len(),
            found_attr(attrs@, i as nat) == Ok::<Option<(MidnightAttr, Span)>, ErrorV>(found),
        decreases attrs@.len() - i,
    {
        match MidnightAttr::from_attribute(&attrs[i]) {
            Err(x) => {
                proof {
                    lemma_found_stop(attrs@, (i + 1) as nat, attrs@.len());
                }
                return Err(x);
            }
            Ok(None) => {}
            Ok(Some(kind)) => {
                let span = attrs[i].span;
                if found.is_some() {
                    proof {
                        lemma_found_stop(attrs@, (i + 1) as nat, attrs@.len());
                    }
                    return Err(
                        MidnightError::new(
                            span,
                            ErrorCode::InvalidAttribute,
                            txt(
                                "duplicate #[nocturne(...)] attribute on the same item; an item takes exactly one nocturne attribute",
                            ),
                        ),
                    );
                }
                found = Some((kind, span));
            }
        }
        i += 1;
    }
    Ok(found)
}

/// What an attribute says.
pub enum AttrTokenV {
    Ident(Seq<char>, Span),
    Keyword(Seq<char>, Span),
    Comma(Span),
    Other(Span),
}

pub enum AttrArgsV {
    List { tokens: Seq<AttrTokenV>, close: Span },
    Bare,
}

pub struct AttributeV {
    pub path: Option<Seq<char>>,
    pub args: AttrArgsV,
    pub meta_span: Span,
    pub span: Span,
}

pub open spec fn token_view(t: AttrToken) -> AttrTokenV {
    match t {
        AttrToken::Ident(i) => AttrTokenV::Ident(i.name@, i.span),
        AttrToken::Keyword(i) => AttrTokenV::Keyword(i.name@, i.span),
        AttrToken::Comma(s) => AttrTokenV::Comma(s),
        AttrToken::Other(s) => AttrTokenV::Other(s),
    }
}

pub open spec fn tokens_view(s: Seq<AttrToken>) -> Seq<AttrTokenV> {
    Seq::new(s.len(), |i: int| token_view(s[i]))
}

pub open spec fn attribute_view(a: Attribute) -> AttributeV {
    AttributeV {
        path: crate::syntax::text_opt(a.path),
        args: match a.args {
            AttrArgs::List { tokens, close } => AttrArgsV::List { tokens: tokens_view(tokens@), close },
            AttrArgs::Bare => AttrArgsV::Bare,
        },
        meta_span: a.meta_span,
        span: a.span,
    }
}

pub open spec fn attributes_view(s: Seq<Attribute>) -> Seq<AttributeV> {
    Seq::new(s.len(), |i: int| attribute_view(s[i]))
}

/// The attributes that are none of ours, in order.
pub open spec fn foreign(s: Seq<Attribute>) -> Seq<AttributeV>
    decreases s.len(),
{
    if s.len() == 0 {
        seq![]
    } else if is_ours(s.last()) {
        foreign(s.drop_last())
    } else {
        foreign(s.drop_last()).push(attribute_view(s.last()))
    }
}

fn copy_ident(i: &Ident) -> (r: Ident)
    ensures
        r.name@ == i.name@,
        r.span == i.span,
{
    Ident { name: i.name.clone(), span: i.span }
}

fn copy_attribute(a: &Attribute) -> (r: Attribute)
    ensures
        attribute_view(r) == attribute_view(*a),
{
    let args = match &a.args {
        AttrArgs::List { tokens, close } => {
            let mut out: Vec<AttrToken> = Vec::new();
            let mut i: usize = 0;
            while i < tokens.len()
                invariant
                    i <= tokens@.len(),
                    out@.len() == i,
                    forall|j: int| 0 <= j < i ==> token_view(#[trigger] out@[j]) == token_view(tokens@[j]),
                decreases tokens@.len() - i,
            {
                let t = match &tokens[i] {
                    AttrToken::Ident(x) => AttrToken::Ident(copy_ident(x)),
                    AttrToken::Keyword(x) => AttrToken::Keyword(copy_ident(x)),
                    AttrToken::Comma(s) => AttrToken::Comma(*s),
                    AttrToken::Other(s) => AttrToken::Other(*s),
                };
                out.push(t);
                i += 1;
            }
            assert(tokens_view(out@) =~= tokens_view(tokens@));
            AttrArgs::List { tokens: out, close: *close }
        }
        AttrArgs::Bare => AttrArgs::Bare,
    };
    Attribute { path: crate::syntax::copy_text_opt(&a.path), args, meta_span: a.meta_span, span: a.span }
}

/// The attributes without those of ours.
pub fn strip_midnight_attrs(attrs: &Vec<Attribute>) -> (r: Vec<Attribute>)
    ensures
        attributes_view(r@) == foreign(attrs@),
{
    let mut out: Vec<Attribute> = Vec::new();
    assert(attributes_view(out@) =~= foreign(attrs@.take(0)));
    let mut i: usize = 0;
    while i < attrs.len()
        invariant
            i <= attrs@.len(),
            attributes_view(out@) == foreign(attrs@.take(i as int)),
        decreases attrs@.len() - i,
    {
        assert(attrs@.take(i + 1).drop_last() =~= attrs@.take(i as int));
        if !is_midnight_attr(&attrs[i]) {
            let ghost before = out@;
            let a = copy_attribute(&attrs[i]);
            out.push(a);
            assert(attributes_view(out@) =~= attributes_view(before).push(attribute_view(a)));
        }
        i += 1;
    }
    assert(attrs@.take(i as int) =~= attrs@);
    out
}

} // verus!
