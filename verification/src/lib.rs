//! Core of a design tool's native backend: a verified mask-normalization,
//! resampling and compositing pipeline for client-side background removal,
//! together with the validation and formatting rules of the surrounding
//! commands (draft storage keys, remote API parameter checks, error
//! categorisation).

pub mod auth;
pub mod codec;
pub mod composite;
pub mod documents;
pub mod drafts;
pub mod figma;
pub mod fonts;
pub mod mask;
pub mod pipeline;
pub mod resample;
pub mod text;
pub mod unsplash;
pub mod urlinfo;
