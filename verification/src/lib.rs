pub mod representations;
pub mod functions;
pub mod ast_visitor;
pub mod dependency_graph;
pub mod contract_dependencies;
pub mod ast_dependency_detector;
pub mod parser;
pub mod wf_check;
pub mod annotation;
pub mod diagnostic;
pub mod text;
pub mod contract_call_detector;
pub mod balances;
pub mod interpreter;
pub mod settings;
pub mod session;
pub mod hex;
pub mod secp256k1;
pub mod taint;
pub mod analysis;
pub mod analysis_db;
pub mod check_checker;
pub mod taint_checker;
pub mod debug;
pub mod debug_adapter;
pub mod repl;
pub mod api_reference;
pub mod value_codec;
pub mod value_text;
pub mod literal;
pub mod links;
pub mod terminal;
pub mod assets;
