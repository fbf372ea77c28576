//! A reading assistant's verified core: text normalisation, tokenising and
//! lemmatising, local translation and keyword extraction, the parsing of
//! online dictionary pages, the starred-entry store and the popup rules.
pub mod text;
pub mod models;
pub mod dictionary;
pub mod translator;
pub mod store;
pub mod starred;
pub mod stamps;
pub mod lookup;
pub mod popup;
pub mod selection;
