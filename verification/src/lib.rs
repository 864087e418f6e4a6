pub mod ast;
pub mod copy;
pub mod error;
pub mod grammar;
pub mod items;
pub mod kernel_launcher_generator;
pub mod kernel_params;
pub mod lists;
pub mod print;
pub mod print_laws;
pub mod rank_instantiation;
pub mod shadow_dispatch;
pub mod table;
pub mod text;
pub mod validate_dsl_syntax;
