//! The Lua interpreter that evaluates a base function.
//!
//! A base function is Lua source text that evaluates to a function from a
//! digit position to the decimal text of the radix at that position.

use mlua::{Error, Function, Lua};
use vstd::prelude::*;

verus! {

/// `mlua::Lua`, a Lua interpreter. Nothing is known of what is inside.
#[verifier::external_type_specification]
#[verifier::external_body]
pub struct ExLua(Lua);

/// `mlua::Error`, why the interpreter failed. Nothing is known of what is
/// inside.
#[verifier::external_type_specification]
#[verifier::external_body]
pub struct ExLuaError(Error);

/// `Lua::new`: a fresh interpreter with the safe standard libraries loaded,
/// the operating-system library among them. Nothing is claimed of it. Like
/// an allocation, it does not return where the machine has no memory left
/// for it.
#[verifier::external_body]
pub(crate) fn lua_state() -> Lua {
    Lua::new()
}

/// `Lua::load`, `Chunk::eval` and `Function::call` in turn: evaluates the
/// source text to a Lua function and calls that function on the position,
/// taking its answer as text. Nothing is claimed of what the script answers,
/// which may differ from one call to the next. The script runs with the
/// interpreter's standard libraries: one that does not come to an end keeps
/// the call from returning, and one that ends the process takes the caller
/// with it. Both are for the author of the script to rule out.
#[verifier::external_body]
pub(crate) fn lua_apply(lua: &Lua, source: &str, position: usize) -> Result<String, Error> {
    let function: Function = lua.load(source).eval()?;
    function.call(position)
}

} // verus!
