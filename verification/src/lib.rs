//! Authoring and assembly of agentic-worker packs: the worker model, its
//! validation, its projection into an answer document and runtime agent
//! configurations, the flow documents that drive it, and the archive
//! rewrites that turn a built pack into a runner-loadable one.
pub mod text;
pub mod slug;
pub mod json;
pub mod ordered;
pub mod model;
pub mod validate;
pub mod project;
pub mod agents;
pub mod inject;
pub mod archive;
pub mod cbor_flow_post;
pub mod manifest;
pub mod seal;
pub mod loadable;
pub mod assemble;
pub mod ygtc;

pub use json::Json;
pub use model::{
    AgentGraphSpec, AgentKind, Coordinator, DeepWorkerSpec, EmbeddingRef, ExtensionToolBinding, GuardrailRefSpec,
    KnowledgeInput, KnowledgeSpec, LlmRef, MemorySpec, PrecomputedChunk, PrecomputedVectors, ProviderRef,
    ShortTermSpec, Specialist, WorkerSpec, default_iteration_budget, default_top_k,
};
pub use validate::{ValidationError, validate};
