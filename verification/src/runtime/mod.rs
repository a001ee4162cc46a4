pub mod value;
pub mod gobbler;
pub mod scope;
pub mod ops;
pub mod lookup;
pub mod assign;
pub mod control;
pub mod functions;
pub mod calls;
pub mod strings;
pub mod str_lib;
pub mod builtins;
pub mod math;
pub mod stdlib;
pub mod expand;
pub mod interp;
