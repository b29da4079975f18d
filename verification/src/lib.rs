//! AGS4 ground-investigation files as typed, join-ready tables.
//!
//! A file is read through its limits and encoding ([`source`]) into its groups
//! ([`ags`]), and kept by path and size ([`cache`]). One group becomes a table whose
//! columns are typed by the file and whose rows carry content-addressed identifiers
//! ([`read_ags`], [`typing`], [`registry`]); a certificate beside the file can lead a
//! reader straight to the group's bytes ([`cert`]). The file's own structure
//! ([`meta`]), the standard dictionary ([`dict_fns`]) and the rules ([`rules`]) are
//! tables too, and so are the scripts that store a file ([`load`], [`to_duckdb`]), the
//! findings of a rule check ([`validate`]) and the certificate of a file that has no
//! errors ([`certify`]), where the rules can be run on it ([`checkable`]).

pub mod ags;
pub mod cache;
pub mod cert;
pub mod certify;
pub mod checkable;
pub mod clock;
pub mod dict_fns;
pub mod file_dict;
pub mod load;
pub mod meta;
pub mod order;
pub mod read_ags;
pub mod registry;
pub mod rules;
pub mod source;
pub mod table;
pub mod text;
pub mod to_duckdb;
pub mod typing;
pub mod validate;
