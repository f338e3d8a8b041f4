//! An interactive digital-logic circuit builder: an authored circuit model
//! whose elements are wired through a shared indexed space of boolean signal
//! slots, a modal workflow for adding elements with validated index bindings,
//! and a live simulation session that steps the circuit and answers value
//! queries.

pub mod codec;
pub mod editor;
pub mod engine;
pub mod model;

pub use codec::example_model;
pub use codec::from_json;
pub use codec::to_json;
pub use editor::AddingElement;
pub use editor::AuthoringError;
pub use editor::ComponentDraft;
pub use editor::Editor;
pub use editor::SelectedElement;
pub use engine::Simulator;
pub use model::CircuitModel;
pub use model::Component;
pub use model::Function;
pub use model::Input;
pub use model::Output;
