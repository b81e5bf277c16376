//! Orbit propagation and onboard component simulation: the verified core.
pub mod components;
pub mod propagator;
pub mod sgp4_calls;
pub mod simulation;
pub mod text;

use vstd::prelude::*;

verus! {

/// The greeting the web front end shows to confirm the module loaded.
pub fn hello_world() -> (greeting: String)
    ensures
        greeting@ == "Hello from WebAssembly! 🚀"@,
{
    String::from_str("Hello from WebAssembly! 🚀")
}

/// Adds two numbers.
pub fn add(a: i32, b: i32) -> (sum: i32)
    requires
        i32::MIN <= a + b <= i32::MAX,
    ensures
        sum == a + b,
{
    a + b
}

} // verus!
