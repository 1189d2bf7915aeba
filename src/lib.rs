use vstd::prelude::*;

pub mod pos;
pub mod matrix;
pub mod view;
pub mod carved;
pub mod materialize;
