//! Transport of sequent-calculus proof objects across rule-enablement epochs.
//!
//! A `Proof` is a flat, id-indexed collection of inference steps with a
//! distinguished root. The library validates the local well-formedness of
//! such proofs, rewrites them to remove the structural `Cut` rule, scores
//! their structural complexity, and orchestrates those steps under a
//! time-sliced policy of enabled rules.

pub mod ast;
pub mod cutelim;
pub mod frag;
pub mod registry;
pub mod seqs;
pub mod text;
pub mod transport;
pub mod validator;

pub use ast::Formula;
pub use ast::FormulaNode;
pub use ast::Proof;
pub use ast::ProofNode;
pub use ast::Sequent;
pub use ast::Term;
pub use ast::TermNode;
pub use frag::fragility_score;
pub use registry::Registry;
pub use registry::RuleId;
pub use registry::TimeSlice;
pub use validator::WfError;
pub use validator::rule_from_str;
pub use validator::validate_local_wf;
pub use cutelim::cut_eliminate_all;
pub use cutelim::cut_eliminate_root;
pub use transport::Certificate;
pub use transport::TransportError;
pub use transport::fragility_delta;
pub use transport::transport;
pub use transport::transport_with_cert;
