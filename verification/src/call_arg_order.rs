//! Putting the labeled arguments of a call in the order of the callee's
//! parameters.

use vstd::prelude::*;
use crate::ast::{IdName, Identifier, LabeledArg, LabeledCallArg, Param, ParamTerm, labeled_args_view, params_view, copy_identifier};
use crate::equality::{identifier_names_equal, copy_labeled_call_arg};

verus! {

#[derive(Debug)]
pub enum LabeledCallArgError {
    /// No argument has the label of this parameter.
    MissingLabeledCallArg { label: Identifier },
    /// The argument at this position has a label that no parameter has.
    ExtraneousLabeledCallArg { arg_position: usize },
}

/// A parameter's label is its explicit label, or else its name.
pub open spec fn param_label(p: ParamTerm) -> IdName {
    match p.label {
        Some(l) => l,
        None => p.name,
    }
}

pub open spec fn arg_label(a: LabeledArg) -> IdName {
    match a {
        LabeledArg::Implicit { label, .. } => label,
        LabeledArg::Explicit { label, .. } => label,
    }
}

pub open spec fn has_arg_labeled(args: Seq<LabeledArg>, l: IdName) -> bool {
    exists|k: int| 0 <= k < args.len() && arg_label(#[trigger] args[k]) == l
}

pub open spec fn has_param_labeled(params: Seq<ParamTerm>, l: IdName) -> bool {
    exists|i: int| 0 <= i < params.len() && param_label(#[trigger] params[i]) == l
}

/// `k` is the position of the first argument with label `l`.
pub open spec fn is_first_arg_labeled(args: Seq<LabeledArg>, l: IdName, k: int) -> bool {
    &&& 0 <= k < args.len()
    &&& arg_label(args[k]) == l
    &&& forall|j: int| 0 <= j < k ==> arg_label(#[trigger] args[j]) != l
}

pub open spec fn first_arg_labeled(args: Seq<LabeledArg>, l: IdName) -> int {
    choose|k: int| is_first_arg_labeled(args, l, k)
}

/// The `i`-th parameter is the first one that no argument matches.
pub open spec fn is_first_missing_param(params: Seq<ParamTerm>, args: Seq<LabeledArg>, i: int) -> bool {
    &&& 0 <= i < params.len()
    &&& !has_arg_labeled(args, param_label(params[i]))
    &&& forall|j: int| 0 <= j < i ==> has_arg_labeled(args, param_label(#[trigger] params[j]))
}

pub open spec fn every_param_has_an_arg(params: Seq<ParamTerm>, args: Seq<LabeledArg>) -> bool {
    forall|i: int| 0 <= i < params.len() ==> has_arg_labeled(args, param_label(#[trigger] params[i]))
}

/// The `k`-th argument is the first one that no parameter matches.
pub open spec fn is_first_extraneous_arg(params: Seq<ParamTerm>, args: Seq<LabeledArg>, k: int) -> bool {
    &&& 0 <= k < args.len()
    &&& !has_param_labeled(params, arg_label(args[k]))
    &&& forall|j: int| 0 <= j < k ==> has_param_labeled(params, arg_label(#[trigger] args[j]))
}

pub open spec fn every_arg_has_a_param(params: Seq<ParamTerm>, args: Seq<LabeledArg>) -> bool {
    forall|k: int| 0 <= k < args.len() ==> has_param_labeled(params, arg_label(#[trigger] args[k]))
}

/// Each parameter's argument already stands at the parameter's position.
pub open spec fn args_in_order(params: Seq<ParamTerm>, args: Seq<LabeledArg>) -> bool {
    forall|i: int| 0 <= i < params.len() ==> first_arg_labeled(args, param_label(#[trigger] params[i])) == i
}

/// For each parameter, in order, the first argument with its label.
pub open spec fn reordered_args(params: Seq<ParamTerm>, args: Seq<LabeledArg>) -> Seq<LabeledArg> {
    Seq::new(params.len(), |i: int| args[first_arg_labeled(args, param_label(params[i]))])
}

fn param_label_exec(p: &Param) -> (r: &Identifier)
    ensures
        r@ == param_label(p@),
{
    match &p.label {
        Some(l) => l,
        None => &p.name,
    }
}

fn arg_label_exec(a: &LabeledCallArg) -> (r: &Identifier)
    ensures
        r@ == arg_label(a@),
{
    match a {
        LabeledCallArg::Implicit { label, .. } => label,
        LabeledCallArg::Explicit { label, .. } => label,
    }
}

/// The position of the first argument with the label, if any.
fn get_arg_corresponding_to_label(label: &Identifier, args: &Vec<LabeledCallArg>) -> (r: Option<usize>)
    ensures
        match r {
            Some(k) => is_first_arg_labeled(labeled_args_view(args@), label@, k as int),
            None => !has_arg_labeled(labeled_args_view(args@), label@),
        },
{
    let ghost av = labeled_args_view(args@);
    let mut k: usize = 0;
    while k < args.len()
        invariant
            k <= args.len(),
            av == labeled_args_view(args@),
            forall|j: int| 0 <= j < k ==> arg_label(#[trigger] av[j]) != label@,
        decreases args.len() - k,
    {
        assert(av[k as int] == args@[k as int]@);
        if identifier_names_equal(&arg_label_exec(&args[k]).name, &label.name) {
            return Some(k);
        }
        k += 1;
    }
    None
}

/// Whether some parameter has the label.
fn has_corresponding_param(label: &Identifier, params: &Vec<Param>) -> (r: bool)
    ensures
        r == has_param_labeled(params_view(params@), label@),
{
    let ghost pv = params_view(params@);
    let mut i: usize = 0;
    while i < params.len()
        invariant
            i <= params.len(),
            pv == params_view(params@),
            forall|j: int| 0 <= j < i ==> param_label(#[trigger] pv[j]) != label@,
        decreases params.len() - i,
    {
        assert(pv[i as int] == params@[i as int]@);
        if identifier_names_equal(&param_label_exec(&params[i]).name, &label.name) {
            return true;
        }
        i += 1;
    }
    false
}

/// The first argument whose label no parameter has, if any.
pub fn verify_there_are_no_extraneous_args(params: &Vec<Param>, args: &Vec<LabeledCallArg>) -> (r: Result<(), LabeledCallArgError>)
    ensures
        match r {
            Ok(()) => every_arg_has_a_param(params_view(params@), labeled_args_view(args@)),
            Err(LabeledCallArgError::ExtraneousLabeledCallArg { arg_position }) => is_first_extraneous_arg(
                params_view(params@),
                labeled_args_view(args@),
                arg_position as int,
            ),
            Err(_) => false,
        },
{
    let ghost av = labeled_args_view(args@);
    let ghost pv = params_view(params@);
    let mut k: usize = 0;
    while k < args.len()
        invariant
            k <= args.len(),
            av == labeled_args_view(args@),
            pv == params_view(params@),
            forall|j: int| 0 <= j < k ==> has_param_labeled(pv, arg_label(#[trigger] av[j])),
        decreases args.len() - k,
    {
        assert(av[k as int] == args@[k as int]@);
        if !has_corresponding_param(arg_label_exec(&args[k]), params) {
            return Err(LabeledCallArgError::ExtraneousLabeledCallArg { arg_position: k });
        }
        k += 1;
    }
    Ok(())
}

/// If every parameter has an argument with its label, no argument is
/// extraneous, and the arguments are already in parameter order, this
/// returns `Ok(None)`; if they are out of order, the arguments in
/// parameter order. A missing argument is reported before an extraneous
/// one.
pub fn correct_uniquely_labeled_call_arg_order(params: &Vec<Param>, args: &Vec<LabeledCallArg>) -> (r: Result<Option<Vec<LabeledCallArg>>, LabeledCallArgError>)
    ensures
        ({
            let pv = params_view(params@);
            let av = labeled_args_view(args@);
            match r {
                Err(LabeledCallArgError::MissingLabeledCallArg { label }) => exists|i: int|
                    is_first_missing_param(pv, av, i) && label@ == param_label(#[trigger] pv[i]),
                Err(LabeledCallArgError::ExtraneousLabeledCallArg { arg_position }) => {
                    &&& every_param_has_an_arg(pv, av)
                    &&& is_first_extraneous_arg(pv, av, arg_position as int)
                },
                Ok(None) => {
                    &&& every_param_has_an_arg(pv, av)
                    &&& every_arg_has_a_param(pv, av)
                    &&& args_in_order(pv, av)
                },
                Ok(Some(v)) => {
                    &&& every_param_has_an_arg(pv, av)
                    &&& every_arg_has_a_param(pv, av)
                    &&& !args_in_order(pv, av)
                    &&& labeled_args_view(v@) == reordered_args(pv, av)
                },
            }
        }),
{
    let ghost pv = params_view(params@);
    let ghost av = labeled_args_view(args@);
    let mut are_any_args_out_of_place = false;
    let mut reordered: Vec<LabeledCallArg> = Vec::new();
    let mut i: usize = 0;
    while i < params.len()
        invariant
            i <= params.len(),
            pv == params_view(params@),
            av == labeled_args_view(args@),
            reordered@.len() == i,
            forall|j: int| 0 <= j < i ==> has_arg_labeled(av, param_label(#[trigger] pv[j])),
            forall|j: int| 0 <= j < i ==> (#[trigger] reordered@[j])@ == reordered_args(pv, av)[j],
            are_any_args_out_of_place <==> exists|j: int| 0 <= j < i && first_arg_labeled(av, param_label(#[trigger] pv[j])) != j,
        decreases params.len() - i,
    {
        assert(pv[i as int] == params@[i as int]@);
        let label = param_label_exec(&params[i]);
        let k = match get_arg_corresponding_to_label(label, args) {
            Some(k) => k,
            None => {
                assert(is_first_missing_param(pv, av, i as int));
                return Err(LabeledCallArgError::MissingLabeledCallArg { label: copy_identifier(label) });
            },
        };
        proof {
            let c = first_arg_labeled(av, label@);
            assert(is_first_arg_labeled(av, label@, c));
            if c < k {
                assert(arg_label(av[c]) != label@);
            } else if c > k {
                assert(arg_label(av[k as int]) != label@);
            }
            assert(c == k);
        }
        if k != i {
            are_any_args_out_of_place = true;
        }
        assert(av[k as int] == args@[k as int]@);
        reordered.push(copy_labeled_call_arg(&args[k]));
        i += 1;
    }
    match verify_there_are_no_extraneous_args(params, args) {
        Err(e) => {
            return Err(e);
        },
        Ok(()) => {},
    }
    if are_any_args_out_of_place {
        assert(labeled_args_view(reordered@) =~= reordered_args(pv, av));
        Ok(Some(reordered))
    } else {
        Ok(None)
    }
}


/// After reordering, the argument at each position carries the label of the
/// parameter at that position.
pub proof fn lemma_reordered_args_match_param_labels(params: Seq<ParamTerm>, args: Seq<LabeledArg>)
    requires
        every_param_has_an_arg(params, args),
    ensures
        reordered_args(params, args).len() == params.len(),
        forall|i: int| 0 <= i < params.len() ==> arg_label(#[trigger] reordered_args(params, args)[i]) == param_label(params[i]),
{
    assert forall|i: int| 0 <= i < params.len() implies arg_label(#[trigger] reordered_args(params, args)[i]) == param_label(params[i]) by {
        let l = param_label(params[i]);
        assert(has_arg_labeled(args, l));
        let w = choose|k: int| 0 <= k < args.len() && arg_label(#[trigger] args[k]) == l;
        lemma_first_arg_labeled_exists(args, l, w);
    }
}

/// Where some argument has the label, there is a first one.
proof fn lemma_first_arg_labeled_exists(args: Seq<LabeledArg>, l: IdName, w: int)
    requires
        0 <= w < args.len(),
        arg_label(args[w]) == l,
    ensures
        is_first_arg_labeled(args, l, first_arg_labeled(args, l)),
    decreases w,
{
    if exists|j: int| 0 <= j < w && arg_label(#[trigger] args[j]) == l {
        let j = choose|j: int| 0 <= j < w && arg_label(#[trigger] args[j]) == l;
        lemma_first_arg_labeled_exists(args, l, j);
    } else {
        assert(is_first_arg_labeled(args, l, w));
    }
}

}
