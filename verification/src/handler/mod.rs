pub mod builtin_services;
pub mod code_action;
pub mod code_lens;
pub mod completion;
pub mod definition;
pub mod diagnostics;
pub mod document_symbol;
pub mod document_highlight;
pub mod hover;
pub mod inlay_hints;
pub mod js_syntax;
pub mod references;
pub mod rename;
pub mod resolve;
pub mod semantic_tokens;
pub mod signature_help;
pub mod workspace_symbol;
