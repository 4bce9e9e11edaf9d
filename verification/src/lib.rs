pub mod compiler;
pub mod language_features;
