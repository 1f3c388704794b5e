//! Reading and writing task lists in the todo.txt convention.

pub mod date;
pub mod filter;
pub mod ident;
pub mod roundtrip;
pub mod text;
pub mod todocontext;
pub mod todoitem;
pub mod todolibrary;
pub mod todopriority;
pub mod todoproject;
pub mod todorecurrence;

pub use todoitem::TodoItem;
pub use todolibrary::TodoLibrary;
