//! Bag-of-words text encoding for a small toxicity classifier.
//!
//! [`preprocess::TextProcessor`] turns a text into a [`features::FeatureVector`]:
//! it normalises the text, splits it into tokens, gives every new token the
//! next free vocabulary index, and counts the tokens by index. [`text`] and
//! [`vocabulary`] say what that means on sequences of characters, and
//! [`theorems`] states what follows for every text. [`shape`] holds the layer
//! sizes of the network that reads the feature vectors, and checks vector and
//! parameter lengths against them.

pub mod charset;
pub mod features;
pub mod preprocess;
pub mod shape;
pub mod text;
pub mod theorems;
pub mod trusted;
pub mod vocabulary;

pub use features::FeatureVector;
pub use preprocess::TextProcessor;
pub use shape::{DimensionMismatch, NetworkShape};
