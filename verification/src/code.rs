//! Generated Rust code as token text: tokens separated by single spaces, as
//! token streams print.
use crate::text::{cat2, cat3, cat5, number, txt};
use vstd::prelude::*;

verus! {

/// How a character is spelled inside a string literal.
pub open spec fn spelled(c: char) -> Seq<char> {
    if c == '"' {
        seq!['\\', '"']
    } else if c == '\\' {
        seq!['\\', '\\']
    } else if c == '\n' {
        seq!['\\', 'n']
    } else if c == '\r' {
        seq!['\\', 'r']
    } else if c == '\t' {
        seq!['\\', 't']
    } else if c == '\0' {
        seq!['\\', '0']
    } else {
        seq![c]
    }
}

/// A text as it is spelled between the quotes of a string literal.
pub open spec fn escaped(text: Seq<char>) -> Seq<char>
    decreases text.len(),
{
    if text.len() == 0 {
        seq![]
    } else {
        escaped(text.drop_last()) + spelled(text.last())
    }
}

/// The token text of a string literal with the given contents.
#[verifier::opaque]
pub open spec fn string_literal(text: Seq<char>) -> Seq<char> {
    "\""@ + escaped(text) + "\""@
}

/// The text of a string literal.
pub(crate) fn quoted(text: &str) -> (r: String)
    ensures
        r@ == string_literal(text@),
{
    let n: usize = text.unicode_len();
    let mut inner = String::new();
    let mut i: usize = 0;
    proof {
        reveal(string_literal);
        reveal_strlit("\\\"");
        reveal_strlit("\\\\");
        reveal_strlit("\\n");
        reveal_strlit("\\r");
        reveal_strlit("\\t");
        reveal_strlit("\\0");
    }
    while i < n
        invariant
            i <= n,
            n == text@.len(),
            inner@ == escaped(text@.take(i as int)),
            "\\\""@ =~= seq!['\\', '"'],
            "\\\\"@ =~= seq!['\\', '\\'],
            "\\n"@ =~= seq!['\\', 'n'],
            "\\r"@ =~= seq!['\\', 'r'],
            "\\t"@ =~= seq!['\\', 't'],
            "\\0"@ =~= seq!['\\', '0'],
        decreases n - i,
    {
        proof {
            assert(text@.take(i + 1).drop_last() =~= text@.take(i as int));
            assert(text@.subrange(i as int, i + 1) =~= seq![text@[i as int]]);
        }
        let c = text.get_char(i);
        if c == '"' {
            inner.append("\\\"");
        } else if c == '\\' {
            inner.append("\\\\");
        } else if c == '\n' {
            inner.append("\\n");
        } else if c == '\r' {
            inner.append("\\r");
        } else if c == '\t' {
            inner.append("\\t");
        } else if c == '\0' {
            inner.append("\\0");
        } else {
            inner.append(text.substring_char(i, i + 1));
        }
        i += 1;
    }
    proof {
        assert(text@.take(n as int) =~= text@);
    }
    cat3("\"", inner.as_str(), "\"")
}

/// The character that the letter behind a backslash stands for.
pub open spec fn unescaped(c: char) -> char {
    if c == 'n' {
        '\n'
    } else if c == 'r' {
        '\r'
    } else if c == 't' {
        '\t'
    } else if c == '0' {
        '\0'
    } else {
        c
    }
}

/// The text that the inside of a string literal denotes.
pub open spec fn denoted(inside: Seq<char>) -> Seq<char>
    decreases inside.len(),
{
    if inside.len() == 0 {
        seq![]
    } else if inside[0] == '\\' && inside.len() >= 2 {
        seq![unescaped(inside[1])] + denoted(inside.skip(2))
    } else {
        seq![inside[0]] + denoted(inside.skip(1))
    }
}

/// A string literal denotes the text that it was made from.
pub proof fn literals_denote_their_text(text: Seq<char>)
    ensures
        denoted(escaped(text)) == text,
{
    lemma_denoted(text, seq![]);
    assert(escaped(text) + seq![] =~= escaped(text));
    assert(text + seq![] =~= text);
}

proof fn lemma_denoted(text: Seq<char>, rest: Seq<char>)
    ensures
        denoted(escaped(text) + rest) == text + denoted(rest),
    decreases text.len(),
{
    if text.len() == 0 {
        assert(escaped(text) + rest =~= rest);
        assert(text + denoted(rest) =~= denoted(rest));
    } else {
        let c = text.last();
        let whole = spelled(c) + rest;
        lemma_denoted(text.drop_last(), whole);
        assert(escaped(text) + rest =~= escaped(text.drop_last()) + whole);
        assert(whole.skip(spelled(c).len() as int) =~= rest);
        assert(denoted(whole) =~= seq![c] + denoted(rest));
        assert(text.drop_last() + (seq![c] + denoted(rest)) =~= text + denoted(rest));
    }
}

/// Two pieces of code after each other.
pub open spec fn spaced(a: Seq<char>, b: Seq<char>) -> Seq<char> {
    if a.len() == 0 {
        b
    } else if b.len() == 0 {
        a
    } else {
        a + " "@ + b
    }
}

pub(crate) fn put_after(a: &str, b: &str) -> (r: String)
    ensures
        r@ == spaced(a@, b@),
{
    if a.unicode_len() == 0 {
        txt(b)
    } else if b.unicode_len() == 0 {
        txt(a)
    } else {
        cat3(a, " ", b)
    }
}

/// One more element of a comma-separated list of `n` elements.
pub open spec fn listed(before: Seq<char>, n: nat, next: Seq<char>) -> Seq<char> {
    if n == 0 {
        next
    } else {
        before + " , "@ + next
    }
}

pub(crate) fn put_listed(before: &str, n: usize, next: &str) -> (r: String)
    ensures
        r@ == listed(before@, n as nat, next@),
{
    if n == 0 {
        txt(next)
    } else {
        cat3(before, " , ", next)
    }
}

/// A tuple of `n` listed components; one component keeps a comma.
pub open spec fn tuple_of(list: Seq<char>, n: nat) -> Seq<char> {
    if n == 1 {
        "("@ + list + " ,)"@
    } else {
        "("@ + list + ")"@
    }
}

pub(crate) fn make_tuple_of(list: &str, n: usize) -> (r: String)
    ensures
        r@ == tuple_of(list@, n as nat),
{
    if n == 1 {
        cat3("(", list, " ,)")
    } else {
        cat3("(", list, ")")
    }
}

/// Statements in braces.
pub open spec fn braced(s: Seq<char>) -> Seq<char> {
    if s.len() == 0 {
        "{ }"@
    } else {
        "{ "@ + s + " }"@
    }
}

pub(crate) fn make_braced(s: &str) -> (r: String)
    ensures
        r@ == braced(s@),
{
    if s.unicode_len() == 0 {
        txt("{ }")
    } else {
        cat3("{ ", s, " }")
    }
}

pub open spec fn bool_text(b: bool) -> Seq<char> {
    if b {
        "true"@
    } else {
        "false"@
    }
}

pub(crate) fn show_bool(b: bool) -> (r: &'static str)
    ensures
        r@ == bool_text(b),
{
    if b {
        "true"
    } else {
        "false"
    }
}

pub(crate) fn suffixed(n: u128, suffix: &str) -> (r: String)
    ensures
        r@ == crate::text::dec(n as nat) + suffix@,
{
    let d = number(n);
    cat2(d.as_str(), suffix)
}

pub open spec fn refusal_code(message: Seq<char>) -> Seq<char> {
    "compile_error ! ("@ + string_literal(message) + ") ;"@
}

pub(crate) fn make_refusal(message: &str) -> (r: String)
    ensures
        r@ == refusal_code(message@),
{
    let q = quoted(message);
    cat3("compile_error ! (", q.as_str(), ") ;")
}

/// A compile error where a value is expected.
pub open spec fn refusal_value(message: Seq<char>, value: Seq<char>) -> Seq<char> {
    "{ compile_error ! ("@ + string_literal(message) + ") ; "@ + value + " }"@
}

pub(crate) fn make_refusal_value(message: &str, value: &str) -> (r: String)
    ensures
        r@ == refusal_value(message@, value@),
{
    let q = quoted(message);
    cat5("{ compile_error ! (", q.as_str(), ") ; ", value, " }")
}

// ---- transcript operations

/// `Idx` by one key.
pub open spec fn idx_code(push_path: bool, key: Seq<char>) -> Seq<char> {
    "__nocturne_ops . push (Op :: Idx { cached : false , push_path : "@ + bool_text(push_path)
        + " , path : vec ! [Key :: Value (AlignedValue :: from ("@ + key + "))] . into_iter () . collect () , }) ;"@
}

pub(crate) fn make_idx(push_path: bool, key: &str) -> (r: String)
    ensures
        r@ == idx_code(push_path, key@),
{
    cat5(
        "__nocturne_ops . push (Op :: Idx { cached : false , push_path : ",
        show_bool(push_path),
        " , path : vec ! [Key :: Value (AlignedValue :: from (",
        key,
        "))] . into_iter () . collect () , }) ;",
    )
}

/// `Push` of a cell holding a value.
pub open spec fn push_code(storage: bool, value: Seq<char>) -> Seq<char> {
    "__nocturne_ops . push (Op :: Push { storage : "@ + bool_text(storage)
        + " , value : StateValue :: Cell (Sp :: new (AlignedValue :: from ("@ + value + "))) , }) ;"@
}

pub(crate) fn make_push(storage: bool, value: &str) -> (r: String)
    ensures
        r@ == push_code(storage, value@),
{
    cat5(
        "__nocturne_ops . push (Op :: Push { storage : ",
        show_bool(storage),
        " , value : StateValue :: Cell (Sp :: new (AlignedValue :: from (",
        value,
        "))) , }) ;",
    )
}

/// `Popeq` of an expected result.
pub open spec fn popeq_code(cached: bool, result: Seq<char>) -> Seq<char> {
    "__nocturne_ops . push (Op :: Popeq { cached : "@ + bool_text(cached) + " , result : AlignedValue :: from ("@ + result
        + ") , }) ;"@
}

pub(crate) fn make_popeq(cached: bool, result: &str) -> (r: String)
    ensures
        r@ == popeq_code(cached, result@),
{
    cat5(
        "__nocturne_ops . push (Op :: Popeq { cached : ",
        show_bool(cached),
        " , result : AlignedValue :: from (",
        result,
        ") , }) ;",
    )
}

/// A `u8` constant.
pub open spec fn u8_code(n: u8) -> Seq<char> {
    crate::text::dec(n as nat) + "u8"@
}

} // verus!
