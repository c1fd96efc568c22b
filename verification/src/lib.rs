//! Mest: a small functional language with Hindley-Milner type inference.
pub mod algorithm_w;
pub mod annotations;
pub mod ast;
pub mod constructors;
pub mod derivation;
pub mod eval;
pub mod grammar;
pub mod grouping;
pub mod hir;
pub mod infer;
pub mod interner;
pub mod judgement;
pub mod layout;
pub mod lexer;
pub mod parser;
pub mod pretty;
pub mod printer;
pub mod scheme;
pub mod scope;
pub mod subst_laws;
pub mod text;
pub mod token;
pub mod typecheck;
