//! Battery: the only energy store in the model.
//!
//! The charge bookkeeping is physics over real quantities and stays with the
//! caller; the telemetry the battery declares is fixed here.

use vstd::prelude::*;

use super::ChannelSpec;

verus! {

/// The channels a battery with id `component_id` emits, in the order it
/// reports them: one, its state of charge in percent, with id
/// `"<component_id>.state_of_charge"`.
pub fn channels(component_id: &str) -> (specs: Vec<ChannelSpec>)
    ensures
        specs@.len() == 1,
        specs@[0].id@ == component_id@ + ".state_of_charge"@,
        specs@[0].label@ == "Battery charge"@,
        specs@[0].unit@ == "%"@,
{
    let id = String::from_str(component_id).concat(".state_of_charge");
    let channel = ChannelSpec {
        id,
        label: String::from_str("Battery charge"),
        unit: String::from_str("%"),
    };
    let mut specs: Vec<ChannelSpec> = Vec::new();
    specs.push(channel);
    specs
}

} // verus!
