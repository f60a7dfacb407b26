//! The text pieces that the expression printer is built from.

use vstd::prelude::*;
use vstd::string::StrSliceExecFns;
use crate::ast::{IdName, Identifier, IdentifierName, ReservedIdentifierName};

verus! {

/// The number of spaces per indentation level.
pub const INDENT_SIZE_IN_SPACES: usize = 4;

pub open spec fn indent_text(level: nat) -> Seq<char> {
    Seq::new(level * 4, |i: int| ' ')
}

pub open spec fn digit_char(d: nat) -> char {
    if d == 0 {
        '0'
    } else if d == 1 {
        '1'
    } else if d == 2 {
        '2'
    } else if d == 3 {
        '3'
    } else if d == 4 {
        '4'
    } else if d == 5 {
        '5'
    } else if d == 6 {
        '6'
    } else if d == 7 {
        '7'
    } else if d == 8 {
        '8'
    } else {
        '9'
    }
}

/// The decimal digits of `n`, most significant first.
pub open spec fn decimal(n: nat) -> Seq<char>
    decreases n,
{
    if n < 10 {
        seq![digit_char(n)]
    } else {
        decimal(n / 10).push(digit_char(n % 10))
    }
}

pub open spec fn ident_text(n: IdName) -> Seq<char> {
    match n {
        IdName::Standard(s) => s,
        IdName::Reserved(ReservedIdentifierName::TypeTitleCase) => seq!['T', 'y', 'p', 'e'],
        IdName::Reserved(ReservedIdentifierName::Underscore) => seq!['_'],
    }
}

/// The parts with `sep` between each two.
pub open spec fn join(parts: Seq<Seq<char>>, sep: Seq<char>) -> Seq<char>
    decreases parts.len(),
{
    if parts.len() == 0 {
        seq![]
    } else if parts.len() == 1 {
        parts[0]
    } else {
        join(parts.drop_last(), sep) + sep + parts.last()
    }
}

pub open spec fn has_newline(s: Seq<char>) -> bool {
    exists|i: int| 0 <= i < s.len() && s[i] == '\n'
}

/// `s` on a line of its own, indented one level deeper, if it spans
/// several lines.
pub open spec fn oneline_text(s: Seq<char>, level: nat) -> Seq<char> {
    if has_newline(s) {
        seq!['\n'] + indent_text(level + 1) + s + seq!['\n'] + indent_text(level)
    } else {
        s
    }
}

/// Like `oneline_text`, and in parentheses.
pub open spec fn oneline_with_parens_text(s: Seq<char>, level: nat) -> Seq<char> {
    if has_newline(s) {
        seq!['(', '\n'] + indent_text(level + 1) + s + seq!['\n'] + indent_text(level) + seq![')']
    } else {
        s
    }
}

pub fn indent(indent_level: usize) -> (r: String)
    requires
        indent_level * 4 <= usize::MAX,
    ensures
        r@ == indent_text(indent_level as nat),
{
    let n = indent_level * INDENT_SIZE_IN_SPACES;
    let mut out = String::new();
    let mut i: usize = 0;
    proof { reveal_strlit(" "); }
    while i < n
        invariant
            i <= n,
            " "@ == seq![' '],
            out@ == Seq::new(i as nat, |k: int| ' '),
        decreases n - i,
    {
        out.append(" ");
        i += 1;
        assert(out@ =~= Seq::new(i as nat, |k: int| ' '));
    }
    assert(out@ =~= indent_text(indent_level as nat));
    out
}

fn digit_str(d: usize) -> (r: &'static str)
    requires
        d < 10,
    ensures
        r@ == seq![digit_char(d as nat)],
{
    proof {
        reveal_strlit("0");
        reveal_strlit("1");
        reveal_strlit("2");
        reveal_strlit("3");
        reveal_strlit("4");
        reveal_strlit("5");
        reveal_strlit("6");
        reveal_strlit("7");
        reveal_strlit("8");
        reveal_strlit("9");
    }
    if d == 0 {
        "0"
    } else if d == 1 {
        "1"
    } else if d == 2 {
        "2"
    } else if d == 3 {
        "3"
    } else if d == 4 {
        "4"
    } else if d == 5 {
        "5"
    } else if d == 6 {
        "6"
    } else if d == 7 {
        "7"
    } else if d == 8 {
        "8"
    } else {
        "9"
    }
}

/// The decimal digits of `n`.
pub fn decimal_string(n: usize) -> (r: String)
    ensures
        r@ == decimal(n as nat),
    decreases n,
{
    if n < 10 {
        String::from_str(digit_str(n))
    } else {
        let mut s = decimal_string(n / 10);
        s.append(digit_str(n % 10));
        s
    }
}

/// Whether the text spans several lines.
pub fn contains_newline(s: &String) -> (r: bool)
    ensures
        r == has_newline(s@),
{
    let t = s.as_str();
    let n = t.unicode_len();
    let mut i: usize = 0;
    while i < n
        invariant
            i <= n,
            n == t@.len(),
            t@ == s@,
            forall|k: int| 0 <= k < i ==> t@[k] != '\n',
        decreases n - i,
    {
        if t.get_char(i) == '\n' {
            return true;
        }
        i += 1;
    }
    false
}

pub fn debug_ident(ident: &Identifier) -> (r: String)
    ensures
        r@ == ident_text(ident@),
{
    match &ident.name {
        IdentifierName::Standard(s) => s.clone(),
        IdentifierName::Reserved(ReservedIdentifierName::TypeTitleCase) => {
            proof { reveal_strlit("Type"); }
            String::from_str("Type")
        },
        IdentifierName::Reserved(ReservedIdentifierName::Underscore) => {
            proof { reveal_strlit("_"); }
            String::from_str("_")
        },
    }
}

/// `s` on a line of its own if it spans several lines.
pub fn try_oneline(s: &String, indent_level: usize) -> (r: String)
    requires
        (indent_level + 1) * 4 <= usize::MAX,
    ensures
        r@ == oneline_text(s@, indent_level as nat),
{
    if contains_newline(s) {
        let i0 = indent(indent_level);
        let i1 = indent(indent_level + 1);
        let mut out = String::new();
        proof { reveal_strlit("\n"); }
        out.append("\n");
        out.append(i1.as_str());
        out.append(s.as_str());
        out.append("\n");
        out.append(i0.as_str());
        assert(out@ =~= oneline_text(s@, indent_level as nat));
        out
    } else {
        s.clone()
    }
}

/// `s` in parentheses, on a line of its own, if it spans several lines.
pub fn try_oneline_with_multi_parens(s: &String, indent_level: usize) -> (r: String)
    requires
        (indent_level + 1) * 4 <= usize::MAX,
    ensures
        r@ == oneline_with_parens_text(s@, indent_level as nat),
{
    if contains_newline(s) {
        let i0 = indent(indent_level);
        let i1 = indent(indent_level + 1);
        let mut out = String::new();
        proof {
            reveal_strlit("(\n");
            reveal_strlit("\n");
            reveal_strlit(")");
        }
        out.append("(\n");
        out.append(i1.as_str());
        out.append(s.as_str());
        out.append("\n");
        out.append(i0.as_str());
        out.append(")");
        assert(out@ =~= oneline_with_parens_text(s@, indent_level as nat));
        out
    } else {
        s.clone()
    }
}

/// The parts with `sep` between each two.
pub fn join_strings(parts: &Vec<String>, sep: &str) -> (r: String)
    ensures
        r@ == join(Seq::new(parts@.len(), |i: int| parts@[i]@), sep@),
{
    let ghost ps = Seq::new(parts@.len(), |i: int| parts@[i]@);
    let mut out = String::new();
    let mut i: usize = 0;
    assert(join(ps.take(0), sep@) =~= out@);
    while i < parts.len()
        invariant
            i <= parts.len(),
            ps == Seq::new(parts@.len(), |i: int| parts@[i]@),
            out@ == join(ps.take(i as int), sep@),
        decreases parts.len() - i,
    {
        assert(ps.take(i + 1).drop_last() =~= ps.take(i as int));
        if i > 0 {
            out.append(sep);
        }
        out.append(parts[i].as_str());
        i += 1;
        assert(out@ =~= join(ps.take(i as int), sep@));
    }
    assert(ps.take(parts.len() as int) =~= ps);
    out
}

}
