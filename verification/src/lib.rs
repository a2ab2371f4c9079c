use vstd::prelude::*;

pub mod chrome;
pub mod closing;
pub mod decisions;
pub mod documents;
pub mod fmtinsert;
pub mod ids;
pub mod markup;
pub mod navhistory;
pub mod recovery;
pub mod registry;
pub mod selfdelete;
pub mod status;
pub mod swap;
pub mod tabs;
pub mod text;
pub mod viewmode;
pub mod wheel;
pub mod workaround;
pub mod writegate;

verus! {

} // verus!
