//! A printer of expressions for debugging: names carry their De Bruijn
//! index in angle brackets, and nested expressions are indented.

use vstd::prelude::*;
use crate::ast::{
    Term, ArgList, ParamTerm, CaseTerm, IdName, Expression, NameExpression, Call, CallArgList, Param,
    Fun, Match, MatchCase, Forall, exprs_view, params_view, cases_view, idents_view,
};
use crate::debug_text::{
    indent_text, decimal, ident_text, join, oneline_text, oneline_with_parens_text, indent,
    decimal_string, debug_ident, try_oneline, try_oneline_with_multi_parens, join_strings,
};

verus! {

// ---------------------------------------------------------------------
// The model
// ---------------------------------------------------------------------

/// The printer takes expressions of the bound language: calls with
/// unlabeled arguments, parameters without labels, and no check
/// expressions. Each level of nesting must also be indentable.
pub open spec fn printable(t: Term, level: nat) -> bool
    decreases t,
{
    &&& (level + 2) * 4 <= usize::MAX
    &&& match t {
        Term::Name { .. } => true,
        Term::Call { callee, args } => {
            &&& ((*callee is Fun) || printable(*callee, level))
            &&& match args {
                ArgList::Unlabeled(ts) => forall|i: int| 0 <= i < ts.len() ==> printable(#[trigger] ts[i], level + 1),
                ArgList::Labeled(_) => false,
            }
        },
        Term::Fun { params, return_type, body, .. } => {
            &&& forall|i: int| 0 <= i < params.len() ==> (#[trigger] params[i]).label is None && printable(params[i].type_, level)
            &&& printable(*return_type, level + 1)
            &&& printable(*body, level + 1)
        },
        Term::Match { matchee, cases } => {
            &&& printable(*matchee, level + 1)
            &&& forall|i: int| 0 <= i < cases.len() ==> printable((#[trigger] cases[i]).output, level + 2)
        },
        Term::Forall { params, output } => {
            &&& forall|i: int| 0 <= i < params.len() ==> (#[trigger] params[i]).label is None && printable(params[i].type_, level)
            &&& printable(*output, level + 1)
        },
        Term::Check { .. } => false,
    }
}

/// `a.b.c<i>`.
pub open spec fn name_text(components: Seq<IdName>, index: nat) -> Seq<char> {
    join(Seq::new(components.len(), |i: int| ident_text(components[i])), seq!['.']) + seq!['<'] + decimal(index) + seq!['>']
}

pub open spec fn debug_text(t: Term, level: nat) -> Seq<char>
    decreases t,
{
    match t {
        Term::Name { components, index } => name_text(components, index),
        Term::Call { callee, args } => {
            let callee_text = match *callee {
                Term::Fun { name, .. } => ident_text(name),
                _ => debug_text(*callee, level),
            };
            callee_text + seq!['(', '\n'] + join(arg_lines(args, level), seq!['\n']) + seq!['\n'] + indent_text(level) + seq![')']
        },
        Term::Fun { name, params, return_type, body, .. } => seq!['f', 'u', 'n', ' '] + ident_text(name) + seq!['(', '\n']
            + join(param_lines(params, level, seq![',']), seq!['\n']) + seq!['\n'] + indent_text(level) + seq![')', ':', ' ']
            + debug_text(*return_type, level + 1) + seq![' ', '{', '\n'] + indent_text(level + 1) + debug_text(*body, level + 1)
            + seq!['\n'] + indent_text(level) + seq!['}'],
        Term::Match { matchee, cases } => seq!['m', 'a', 't', 'c', 'h', ' '] + oneline_with_parens_text(
            debug_text(*matchee, level + 1),
            level,
        ) + seq![' ', '{', '\n'] + join(case_lines(cases, level), seq!['\n']) + seq!['\n'] + indent_text(level) + seq!['}'],
        Term::Forall { params, output } => seq!['f', 'o', 'r', 'a', 'l', 'l', ' ', '(', '\n'] + join(
            param_lines(params, level, seq![]),
            seq!['\n'],
        ) + seq!['\n'] + indent_text(level) + seq![')', ' ', '{', '\n'] + indent_text(level + 1) + debug_text(*output, level + 1)
            + seq!['\n'] + indent_text(level) + seq!['}'],
        Term::Check { .. } => seq![],
    }
}

/// One line per argument, indented one level deeper, each ending in a
/// comma.
pub open spec fn arg_lines(a: ArgList, level: nat) -> Seq<Seq<char>>
    decreases a,
{
    match a {
        ArgList::Unlabeled(ts) => term_lines(ts, level + 1),
        ArgList::Labeled(_) => seq![],
    }
}

pub open spec fn term_lines(ts: Seq<Term>, level: nat) -> Seq<Seq<char>>
    decreases ts,
{
    Seq::new(
        ts.len(),
        |i: int|
            if 0 <= i < ts.len() {
                indent_text(level) + debug_text(ts[i], level) + seq![',']
            } else {
                seq![]
            },
    )
}

/// `name: type`.
pub open spec fn param_text(p: ParamTerm, level: nat) -> Seq<char>
    decreases p,
{
    ident_text(p.name) + seq![':', ' '] + debug_text(p.type_, level)
}

/// One line per parameter, indented one level deeper.
pub open spec fn param_lines(ps: Seq<ParamTerm>, level: nat, suffix: Seq<char>) -> Seq<Seq<char>>
    decreases ps,
{
    Seq::new(
        ps.len(),
        |i: int|
            if 0 <= i < ps.len() {
                indent_text(level + 1) + param_text(ps[i], level) + suffix
            } else {
                seq![]
            },
    )
}

pub open spec fn case_params_text(ps: Seq<IdName>) -> Seq<char> {
    if ps.len() == 0 {
        seq![]
    } else {
        seq!['('] + join(Seq::new(ps.len(), |i: int| ident_text(ps[i])), seq![',', ' ']) + seq![')']
    }
}

/// `Variant(params) => output,`.
pub open spec fn case_text(c: CaseTerm, level: nat) -> Seq<char>
    decreases c,
{
    ident_text(c.variant_name) + case_params_text(c.params) + seq![' ', '=', '>', ' '] + oneline_text(
        debug_text(c.output, level + 1) + seq![','],
        level,
    )
}

/// One line per case, indented one level deeper.
pub open spec fn case_lines(cs: Seq<CaseTerm>, level: nat) -> Seq<Seq<char>>
    decreases cs,
{
    Seq::new(
        cs.len(),
        |i: int|
            if 0 <= i < cs.len() {
                indent_text(level + 1) + case_text(cs[i], level + 1)
            } else {
                seq![]
            },
    )
}

// ---------------------------------------------------------------------
// The printer
// ---------------------------------------------------------------------

pub fn debug_expression(expression: &Expression, indent_level: usize) -> (r: String)
    requires
        printable(expression@, indent_level as nat),
    ensures
        r@ == debug_text(expression@, indent_level as nat),
    decreases expression,
{
    match expression {
        Expression::Name(name) => debug_name(name, indent_level),
        Expression::Call(call) => debug_call(call, indent_level),
        Expression::Fun(fun) => debug_fun(fun, indent_level),
        Expression::Match(match_) => debug_match(match_, indent_level),
        Expression::Forall(forall) => debug_forall(forall, indent_level),
        Expression::Check(_) => String::new(),
    }
}

pub fn debug_name(name: &NameExpression, _indent_level: usize) -> (r: String)
    ensures
        r@ == name_text(idents_view(name.components@), name.db_index.0 as nat),
{
    let mut parts: Vec<String> = Vec::new();
    let mut i: usize = 0;
    while i < name.components.len()
        invariant
            i <= name.components@.len(),
            parts@.len() == i,
            forall|k: int| 0 <= k < i ==> (#[trigger] parts@[k])@ == ident_text(name.components@[k]@),
        decreases name.components@.len() - i,
    {
        parts.push(debug_ident(&name.components[i]));
        i += 1;
    }
    proof {
        reveal_strlit("."); assert("."@ == seq!['.']);
        reveal_strlit("<"); assert("<"@ == seq!['<']);
        reveal_strlit(">"); assert(">"@ == seq!['>']);
    }
    let ghost cs = idents_view(name.components@);
    assert(Seq::new(parts@.len(), |k: int| parts@[k]@) =~= Seq::new(cs.len(), |k: int| ident_text(cs[k])));
    let mut out = join_strings(&parts, ".");
    out.append("<");
    let digits = decimal_string(name.db_index.0);
    out.append(digits.as_str());
    out.append(">");
    assert(out@ =~= name_text(cs, name.db_index.0 as nat));
    out
}

pub fn debug_call(call: &Call, indent_level: usize) -> (r: String)
    requires
        printable(Expression::Call(Box::new(*call))@, indent_level as nat),
    ensures
        r@ == debug_text(Expression::Call(Box::new(*call))@, indent_level as nat),
    decreases call,
{
    let ghost t = Expression::Call(Box::new(*call))@;
    assert(t == Term::Call { callee: Box::new(call.callee@), args: call.args@ });
    assert(printable(Term::Call { callee: Box::new(call.callee@), args: call.args@ }, indent_level as nat));
    assert(match call.args@ {
        ArgList::Unlabeled(ts) => forall|i: int| 0 <= i < ts.len() ==> printable(#[trigger] ts[i], indent_level as nat + 1),
        ArgList::Labeled(_) => false,
    });
    let callee = match &call.callee {
        Expression::Fun(fun) => debug_ident(&fun.name),
        _ => debug_expression(&call.callee, indent_level),
    };
    let i0 = indent(indent_level);
    let args = match &call.args {
        CallArgList::Unlabeled(v) => {
            assert(call.args@ == ArgList::Unlabeled(exprs_view(v@)));
            assert(match ArgList::Unlabeled(exprs_view(v@)) {
                ArgList::Unlabeled(ts) => forall|i: int| 0 <= i < ts.len() ==> printable(#[trigger] ts[i], indent_level as nat + 1),
                _ => true,
            });
            debug_arg_lines(v, indent_level + 1)
        },
        CallArgList::UniquelyLabeled(_) => {
            proof { assert(false); }
            String::new()
        },
    };
    assert(callee@ == (match call.callee@ {
        Term::Fun { name, .. } => ident_text(name),
        _ => debug_text(call.callee@, indent_level as nat),
    }));
    assert(args@ == join(arg_lines(call.args@, indent_level as nat), seq!['\n']));
    let mut out = callee;
    proof {
        reveal_strlit("(\n"); assert("(\n"@ == seq!['(', '\n']);
        reveal_strlit("\n"); assert("\n"@ == seq!['\n']);
        reveal_strlit(")"); assert(")"@ == seq![')']);
    }
    out.append("(\n");
    out.append(args.as_str());
    out.append("\n");
    out.append(i0.as_str());
    out.append(")");
    assert(out@ =~= debug_text(t, indent_level as nat));
    out
}

/// The arguments, one per line, joined.
fn debug_arg_lines(v: &Vec<Expression>, indent_level: usize) -> (r: String)
    requires
        (indent_level + 1) * 4 <= usize::MAX,
        forall|i: int| 0 <= i < v@.len() ==> printable(#[trigger] exprs_view(v@)[i], indent_level as nat),
    ensures
        r@ == join(term_lines(exprs_view(v@), indent_level as nat), seq!['\n']),
    decreases v,
{
    let ghost lines = term_lines(exprs_view(v@), indent_level as nat);
    let i1 = indent(indent_level);
    let mut parts: Vec<String> = Vec::new();
    let mut i: usize = 0;
    proof { reveal_strlit(","); assert(","@ == seq![',']); }
    while i < v.len()
        invariant
            i <= v.len(),
            (indent_level + 1) * 4 <= usize::MAX,
            i1@ == indent_text(indent_level as nat),
            lines == term_lines(exprs_view(v@), indent_level as nat),
            ","@ == seq![','],
            forall|k: int| 0 <= k < v@.len() ==> printable(#[trigger] exprs_view(v@)[k], indent_level as nat),
            parts@.len() == i,
            forall|k: int| 0 <= k < i ==> (#[trigger] parts@[k])@ == lines[k],
        decreases v.len() - i,
    {
        assert(exprs_view(v@)[i as int] == v@[i as int]@);
        let text = debug_expression(&v[i], indent_level);
        let mut line = i1.clone();
        line.append(text.as_str());
        line.append(",");
        assert(line@ =~= lines[i as int]);
        parts.push(line);
        i += 1;
    }
    proof { reveal_strlit("\n"); assert("\n"@ == seq!['\n']); }
    assert(Seq::new(parts@.len(), |k: int| parts@[k]@) =~= lines);
    join_strings(&parts, "\n")
}

pub fn debug_param(param: &Param, indent_level: usize) -> (r: String)
    requires
        printable(param@.type_, indent_level as nat),
    ensures
        r@ == param_text(param@, indent_level as nat),
    decreases param,
{
    let mut out = debug_ident(&param.name);
    proof { reveal_strlit(": "); assert(": "@ == seq![':', ' ']); }
    out.append(": ");
    let t = debug_expression(&param.type_, indent_level);
    out.append(t.as_str());
    assert(out@ =~= param_text(param@, indent_level as nat));
    out
}

/// The parameters, one per line, each followed by `suffix`, joined.
fn debug_param_lines(v: &Vec<Param>, indent_level: usize, suffix: &str) -> (r: String)
    requires
        (indent_level + 2) * 4 <= usize::MAX,
        forall|i: int| 0 <= i < v@.len() ==> printable(#[trigger] params_view(v@)[i].type_, indent_level as nat),
    ensures
        r@ == join(param_lines(params_view(v@), indent_level as nat, suffix@), seq!['\n']),
    decreases v,
{
    let ghost lines = param_lines(params_view(v@), indent_level as nat, suffix@);
    let i1 = indent(indent_level + 1);
    let mut parts: Vec<String> = Vec::new();
    let mut i: usize = 0;
    while i < v.len()
        invariant
            i <= v.len(),
            (indent_level + 2) * 4 <= usize::MAX,
            i1@ == indent_text(indent_level as nat + 1),
            lines == param_lines(params_view(v@), indent_level as nat, suffix@),
            forall|k: int| 0 <= k < v@.len() ==> printable(#[trigger] params_view(v@)[k].type_, indent_level as nat),
            parts@.len() == i,
            forall|k: int| 0 <= k < i ==> (#[trigger] parts@[k])@ == lines[k],
        decreases v.len() - i,
    {
        assert(params_view(v@)[i as int] == v@[i as int]@);
        let text = debug_param(&v[i], indent_level);
        let mut line = i1.clone();
        line.append(text.as_str());
        line.append(suffix);
        assert(line@ =~= lines[i as int]);
        parts.push(line);
        i += 1;
    }
    proof { reveal_strlit("\n"); assert("\n"@ == seq!['\n']); }
    assert(Seq::new(parts@.len(), |k: int| parts@[k]@) =~= lines);
    join_strings(&parts, "\n")
}

pub fn debug_fun(fun: &Fun, indent_level: usize) -> (r: String)
    requires
        printable(Expression::Fun(Box::new(*fun))@, indent_level as nat),
    ensures
        r@ == debug_text(Expression::Fun(Box::new(*fun))@, indent_level as nat),
    decreases fun,
{
    let ghost t = Expression::Fun(Box::new(*fun))@;
    let i0 = indent(indent_level);
    let i1 = indent(indent_level + 1);
    proof { reveal_strlit(","); assert(","@ == seq![',']); }
    let params = debug_param_lines(&fun.params, indent_level, ",");
    let return_type = debug_expression(&fun.return_type, indent_level + 1);
    let body = debug_expression(&fun.body, indent_level + 1);
    proof {
        reveal_strlit("fun "); assert("fun "@ == seq!['f', 'u', 'n', ' ']);
        reveal_strlit("(\n"); assert("(\n"@ == seq!['(', '\n']);
        reveal_strlit("\n"); assert("\n"@ == seq!['\n']);
        reveal_strlit("): "); assert("): "@ == seq![')', ':', ' ']);
        reveal_strlit(" {\n"); assert(" {\n"@ == seq![' ', '{', '\n']);
        reveal_strlit("}"); assert("}"@ == seq!['}']);
    }
    let mut out = String::new();
    out.append("fun ");
    let name = debug_ident(&fun.name);
    out.append(name.as_str());
    out.append("(\n");
    out.append(params.as_str());
    out.append("\n");
    out.append(i0.as_str());
    out.append("): ");
    out.append(return_type.as_str());
    out.append(" {\n");
    out.append(i1.as_str());
    out.append(body.as_str());
    out.append("\n");
    out.append(i0.as_str());
    out.append("}");
    assert(out@ =~= debug_text(t, indent_level as nat));
    out
}

pub fn debug_match(match_: &Match, indent_level: usize) -> (r: String)
    requires
        printable(Expression::Match(Box::new(*match_))@, indent_level as nat),
    ensures
        r@ == debug_text(Expression::Match(Box::new(*match_))@, indent_level as nat),
    decreases match_,
{
    let ghost t = Expression::Match(Box::new(*match_))@;
    let i0 = indent(indent_level);
    let matchee = debug_expression(&match_.matchee, indent_level + 1);
    let cases = debug_case_lines(&match_.cases, indent_level);
    let head = try_oneline_with_multi_parens(&matchee, indent_level);
    proof {
        reveal_strlit("match "); assert("match "@ == seq!['m', 'a', 't', 'c', 'h', ' ']);
        reveal_strlit(" {\n"); assert(" {\n"@ == seq![' ', '{', '\n']);
        reveal_strlit("\n"); assert("\n"@ == seq!['\n']);
        reveal_strlit("}"); assert("}"@ == seq!['}']);
    }
    let mut out = String::new();
    out.append("match ");
    out.append(head.as_str());
    out.append(" {\n");
    out.append(cases.as_str());
    out.append("\n");
    out.append(i0.as_str());
    out.append("}");
    assert(out@ =~= debug_text(t, indent_level as nat));
    out
}

/// The cases, one per line, joined.
fn debug_case_lines(v: &Vec<MatchCase>, indent_level: usize) -> (r: String)
    requires
        (indent_level + 2) * 4 <= usize::MAX,
        forall|i: int| 0 <= i < v@.len() ==> printable((#[trigger] cases_view(v@)[i]).output, indent_level as nat + 2),
    ensures
        r@ == join(case_lines(cases_view(v@), indent_level as nat), seq!['\n']),
    decreases v,
{
    let ghost lines = case_lines(cases_view(v@), indent_level as nat);
    let i1 = indent(indent_level + 1);
    let mut parts: Vec<String> = Vec::new();
    let mut i: usize = 0;
    while i < v.len()
        invariant
            i <= v.len(),
            (indent_level + 2) * 4 <= usize::MAX,
            i1@ == indent_text(indent_level as nat + 1),
            lines == case_lines(cases_view(v@), indent_level as nat),
            forall|k: int| 0 <= k < v@.len() ==> printable((#[trigger] cases_view(v@)[k]).output, indent_level as nat + 2),
            parts@.len() == i,
            forall|k: int| 0 <= k < i ==> (#[trigger] parts@[k])@ == lines[k],
        decreases v.len() - i,
    {
        assert(cases_view(v@)[i as int] == v@[i as int]@);
        let text = debug_match_case(&v[i], indent_level + 1);
        let mut line = i1.clone();
        line.append(text.as_str());
        assert(line@ =~= lines[i as int]);
        parts.push(line);
        i += 1;
    }
    proof { reveal_strlit("\n"); assert("\n"@ == seq!['\n']); }
    assert(Seq::new(parts@.len(), |k: int| parts@[k]@) =~= lines);
    join_strings(&parts, "\n")
}

pub fn debug_match_case(case: &MatchCase, indent_level: usize) -> (r: String)
    requires
        printable(case@.output, indent_level as nat + 1),
    ensures
        r@ == case_text(case@, indent_level as nat),
    decreases case,
{
    let variant_name = debug_ident(&case.variant_name);
    let params = if case.params.len() == 0 {
        String::new()
    } else {
        let mut names: Vec<String> = Vec::new();
        let mut i: usize = 0;
        while i < case.params.len()
            invariant
                i <= case.params@.len(),
                names@.len() == i,
                forall|k: int| 0 <= k < i ==> (#[trigger] names@[k])@ == ident_text(case.params@[k]@),
            decreases case.params@.len() - i,
        {
            names.push(debug_ident(&case.params[i]));
            i += 1;
        }
        let ghost ps = idents_view(case.params@);
        assert(Seq::new(names@.len(), |k: int| names@[k]@) =~= Seq::new(ps.len(), |k: int| ident_text(ps[k])));
        proof {
            reveal_strlit(", "); assert(", "@ == seq![',', ' ']);
            reveal_strlit("("); assert("("@ == seq!['(']);
            reveal_strlit(")"); assert(")"@ == seq![')']);
        }
        let joined = join_strings(&names, ", ");
        let mut p = String::new();
        p.append("(");
        p.append(joined.as_str());
        p.append(")");
        p
    };
    assert(params@ =~= case_params_text(case@.params));
    let mut output = debug_expression(&case.output, indent_level + 1);
    proof {
        reveal_strlit(","); assert(","@ == seq![',']);
        reveal_strlit(" => "); assert(" => "@ == seq![' ', '=', '>', ' ']);
    }
    output.append(",");
    let tail = try_oneline(&output, indent_level);
    let mut out = variant_name;
    out.append(params.as_str());
    out.append(" => ");
    out.append(tail.as_str());
    assert(out@ =~= case_text(case@, indent_level as nat));
    out
}

pub fn debug_forall(forall: &Forall, indent_level: usize) -> (r: String)
    requires
        printable(Expression::Forall(Box::new(*forall))@, indent_level as nat),
    ensures
        r@ == debug_text(Expression::Forall(Box::new(*forall))@, indent_level as nat),
    decreases forall,
{
    let ghost t = Expression::Forall(Box::new(*forall))@;
    let i0 = indent(indent_level);
    let i1 = indent(indent_level + 1);
    proof { reveal_strlit("");
assert(""@ == Seq::<char>::empty()); }
    let params = debug_param_lines(&forall.params, indent_level, "");
    let output = debug_expression(&forall.output, indent_level + 1);
    proof {
        reveal_strlit("forall (\n"); assert("forall (\n"@ == seq!['f', 'o', 'r', 'a', 'l', 'l', ' ', '(', '\n']);
        reveal_strlit("\n"); assert("\n"@ == seq!['\n']);
        reveal_strlit(") {\n"); assert(") {\n"@ == seq![')', ' ', '{', '\n']);
        reveal_strlit("}"); assert("}"@ == seq!['}']);
    }
    let mut out = String::new();
    out.append("forall (\n");
    out.append(params.as_str());
    out.append("\n");
    out.append(i0.as_str());
    out.append(") {\n");
    out.append(i1.as_str());
    out.append(output.as_str());
    out.append("\n");
    out.append(i0.as_str());
    out.append("}");
    assert(out@ =~= debug_text(t, indent_level as nat));
    out
}

}
