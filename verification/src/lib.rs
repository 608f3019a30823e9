use vstd::prelude::*;

pub mod text;
pub mod bytes;
pub mod base32;
pub mod base128;
pub mod html;
pub mod scan;
pub mod prettify;
pub mod names;
pub mod body;
pub mod title;
pub mod avatar;
pub mod password;
pub mod customization;
pub mod template;
pub mod filters;
pub mod site;
pub mod search;
pub mod posts;
pub mod submit;
pub mod accounts;
pub mod session;
pub mod robots;
pub mod invites;
pub mod plain;
pub mod markup;
pub mod forever;
pub mod pid_file_fairing;

verus! {

} // verus!
