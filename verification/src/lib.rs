use vstd::prelude::*;

pub mod ast;
pub mod bishift;
pub mod call_arg_order;
pub mod context;
pub mod debug;
pub mod debug_text;
pub mod dynamic_substitution;
pub mod equality;
pub mod eval;
pub mod file;
pub mod fun_recursion;
pub mod fun_recursion_context;
pub mod fun_recursion_file;
pub mod fun_recursion_marks;
pub mod min_db_index;
pub mod min_db_index_laws;
pub mod misc;
pub mod normal_form;
pub mod shift;
pub mod shift_compose_laws;
pub mod shift_laws;
pub mod shift_trait;
pub mod substitute;
pub mod substitute_laws;
pub mod substitution_application;
pub mod substitution_context;
pub mod subterm;
pub mod type_check;
pub mod type_check_file;
pub mod type_positivity;
pub mod type_positivity_file;

verus! {
}
