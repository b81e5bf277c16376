//! Solar array: the only power source in the model.
//!
//! The array's output is physics over real quantities and stays with the
//! caller; the telemetry the array declares is fixed here.

use vstd::prelude::*;

use super::ChannelSpec;

verus! {

/// The channels a solar array with id `component_id` emits, in the order it
/// reports them: one, the power it generated in watts, with id
/// `"<component_id>.power_generated"`.
pub fn channels(component_id: &str) -> (specs: Vec<ChannelSpec>)
    ensures
        specs@.len() == 1,
        specs@[0].id@ == component_id@ + ".power_generated"@,
        specs@[0].label@ == "Solar power"@,
        specs@[0].unit@ == "W"@,
{
    let id = String::from_str(component_id).concat(".power_generated");
    let channel = ChannelSpec {
        id,
        label: String::from_str("Solar power"),
        unit: String::from_str("W"),
    };
    let mut specs: Vec<ChannelSpec> = Vec::new();
    specs.push(channel);
    specs
}

} // verus!
