//! A small catalogue of binary assets: identifier-keyed stores of file and
//! asset records, the policy that names a stored file after its identifier,
//! and the bookkeeping of an import that may fail half way.

pub mod data;
pub mod stores;
pub mod text;
