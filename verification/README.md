# pamc

The middle passes of a compiler for a small, total, dependently typed
language, written in Verus: the expression language with De Bruijn indices,
and the checks and transformations that work on it. Every function states
its behaviour as a contract over a mathematical model of the expressions
(`ast::Term`), and Verus proves it.

## Layout

- `ast`, `file`: expressions, files, and their models.
- `equality`: structural equality and copies.
- `shift`, `shift_trait`, `bishift`, `shift_laws`, `shift_compose_laws`:
  renumbering free variables, and the laws that relate the renumberings.
- `substitute`, `substitute_laws`: replacing one expression by another
  under binders.
- `min_db_index`, `subterm`: the least free variable of an expression, and
  whether one expression occurs inside another.
- `context`, `substitution_context`: the type checker's stack of variables
  and of learned substitutions.
- `normal_form`, `dynamic_substitution`: recognising constructor
  applications, and turning equations between normal forms into
  substitutions.
- `eval`: evaluation of expressions to normal form, with a fuel that
  bounds the unfoldings of function bodies and case outputs, and the law
  that more fuel never changes an answer.
- `substitution_application`: rewriting terms with the equations that the
  substitution context has learned.
- `type_check`, `type_check_file`: the type checker for names, calls,
  functions, foralls and check expressions, and for files of type and
  `let` statements; each takes a fuel that it hands to the evaluations and
  rewritings it starts.
- `misc`, `call_arg_order`: the type checker's errors, matching cases
  against variants, and labeled arguments against parameters.
- `fun_recursion_context`, `fun_recursion`, `fun_recursion_marks`,
  `fun_recursion_file`: the check that recursive functions recurse on
  strict substructures, which gives back the expression or file with each
  check assertion side that holds illegal recursion marked invalid.
- `type_positivity`, `type_positivity_file`: the check that a variable does
  not occur in an expression.
- `debug_text`, `debug`: the indented printer for expressions.
