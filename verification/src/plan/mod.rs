//! What a run decides, and how it is shown.

pub mod all;
pub mod checkout;
pub mod cloning;
pub mod compare;
pub mod decide;
pub mod diff;
pub mod error;
pub mod external;
pub mod git;
pub mod interrupted;
pub mod notes;
pub mod owned;
pub mod parents;
pub mod region;
pub mod render;
pub mod rows;
pub mod run;
pub mod styles;
pub mod target;
pub mod undeclared;
pub mod view;
pub mod wanted;
pub mod whole;
