use orbit_lib::components::telemetry::{ArityMismatch, ChannelLayout, TelemetrySink};
use orbit_lib::components::{battery, order_for_execution, solar, ChannelSpec, ExecutionOrder};

fn spec(id: &str) -> ChannelSpec {
    ChannelSpec { id: id.to_owned(), label: String::new(), unit: String::new() }
}

#[test]
fn sources_are_ordered_before_storage() {
    // Deliberately configured storage-first, to prove the sort.
    let configured = vec![(ExecutionOrder::Storage, "main_battery"), (ExecutionOrder::Source, "array")];
    let orders: Vec<_> = order_for_execution(configured)
        .into_iter()
        .map(|(order, _)| order)
        .collect();

    assert_eq!(orders, vec![ExecutionOrder::Source, ExecutionOrder::Storage]);
}

#[test]
fn ordering_is_stable_within_a_phase() {
    let configured = vec![
        (ExecutionOrder::Storage, 0),
        (ExecutionOrder::Load, 1),
        (ExecutionOrder::Source, 2),
        (ExecutionOrder::Storage, 3),
        (ExecutionOrder::Source, 4),
        (ExecutionOrder::Load, 5),
    ];
    let ordered: Vec<_> = order_for_execution(configured).into_iter().map(|(_, n)| n).collect();
    assert_eq!(ordered, vec![2, 4, 1, 5, 0, 3]);
}

#[test]
fn battery_declares_its_state_of_charge() {
    let channels = battery::channels("main_battery");
    assert_eq!(channels.len(), 1);
    assert_eq!(channels[0].id, "main_battery.state_of_charge");
    assert_eq!(channels[0].label, "Battery charge");
    assert_eq!(channels[0].unit, "%");
}

#[test]
fn solar_array_declares_its_power() {
    let channels = solar::channels("array");
    assert_eq!(channels.len(), 1);
    assert_eq!(channels[0].id, "array.power_generated");
    assert_eq!(channels[0].label, "Solar power");
    assert_eq!(channels[0].unit, "W");
}

#[test]
fn cloning_a_channel_spec_keeps_its_text() {
    let original = ChannelSpec { id: "a.b".to_owned(), label: "L".to_owned(), unit: "W".to_owned() };
    let copy = original.clone();
    assert_eq!((copy.id, copy.label, copy.unit), (original.id, original.label, original.unit));
}

fn layout() -> ChannelLayout {
    ChannelLayout::new(vec![
        vec![spec("a.x")],
        vec![],
        vec![spec("c.x"), spec("c.y")],
    ])
}

#[test]
fn lays_out_each_components_channels_after_the_previous_ones() {
    let layout = layout();
    assert_eq!(layout.component_count(), 3);
    assert_eq!((layout.offset(0), layout.offset(1), layout.offset(2)), (0, 1, 1));
    assert_eq!((layout.count(0), layout.count(1), layout.count(2)), (1, 0, 2));
    let ids: Vec<_> = layout.specs().iter().map(|spec| spec.id.clone()).collect();
    assert_eq!(ids, vec!["a.x", "c.x", "c.y"]);
}

#[test]
fn series_stay_parallel_to_the_sample_grid() {
    let layout = layout();
    let mut sink: TelemetrySink<f64> = TelemetrySink::new(layout.specs().len(), 4);
    for sample in 0..4 {
        let base = sample as f64;
        assert!(sink.record_component(&layout, 0, &[base]).is_ok());
        assert!(sink.record_component(&layout, 1, &[]).is_ok());
        assert!(sink.record_component(&layout, 2, &[base + 0.5, base + 0.25]).is_ok());
    }
    let channels = sink.finish(layout.specs().clone());
    assert_eq!(channels.len(), 3);
    assert_eq!(channels[0].spec.id, "a.x");
    assert_eq!(channels[0].values, vec![0.0, 1.0, 2.0, 3.0]);
    assert_eq!(channels[1].values, vec![0.5, 1.5, 2.5, 3.5]);
    assert_eq!(channels[2].values, vec![0.25, 1.25, 2.25, 3.25]);
}

#[test]
fn a_wrong_number_of_values_is_reported_and_not_recorded() {
    let layout = layout();
    let mut sink: TelemetrySink<f64> = TelemetrySink::new(3, 1);
    assert_eq!(
        sink.record_component(&layout, 2, &[1.0]),
        Err(ArityMismatch { component: 2, returned: 1, declared: 2 })
    );
    let channels = sink.finish(layout.specs().clone());
    assert!(channels.iter().all(|channel| channel.values.is_empty()));
}

#[test]
fn record_writes_only_the_given_span() {
    let mut sink: TelemetrySink<u32> = TelemetrySink::new(4, 2);
    sink.record(1, &[7, 8]);
    let channels = sink.finish(vec![spec("0"), spec("1"), spec("2"), spec("3")]);
    let values: Vec<_> = channels.iter().map(|channel| channel.values.clone()).collect();
    assert_eq!(values, vec![vec![], vec![7], vec![8], vec![]]);
}

#[test]
fn finishing_pairs_specs_with_series_and_drops_the_unpaired() {
    let mut sink: TelemetrySink<u32> = TelemetrySink::new(2, 1);
    sink.record(0, &[1, 2]);
    let channels = sink.finish(vec![spec("a"), spec("b"), spec("c")]);
    assert_eq!(channels.len(), 2);
    assert_eq!(channels[1].spec.id, "b");
    assert_eq!(channels[1].values, vec![2]);

    let sink: TelemetrySink<u32> = TelemetrySink::new(3, 1);
    assert_eq!(sink.finish(vec![spec("a")]).len(), 1);
}

#[test]
fn recording_no_values_past_the_end_changes_nothing() {
    let mut sink: TelemetrySink<u32> = TelemetrySink::new(2, 1);
    sink.record(5, &[]);
    sink.record(1, &[4]);
    sink.record(1, &[5]);
    let channels = sink.finish(vec![spec("a"), spec("b")]);
    assert_eq!(channels[0].values, Vec::<u32>::new());
    assert_eq!(channels[1].values, vec![4, 5]);
}

#[test]
fn recording_a_step_extends_every_series_by_one() {
    let layout = layout();
    let mut sink: TelemetrySink<u32> = TelemetrySink::new(3, 2);
    assert!(sink.record_step(&layout, &vec![vec![1], vec![], vec![2, 3]]).is_ok());
    assert!(sink.record_step(&layout, &vec![vec![4], vec![], vec![5, 6]]).is_ok());
    let channels = sink.finish(layout.specs().clone());
    let values: Vec<_> = channels.iter().map(|channel| channel.values.clone()).collect();
    assert_eq!(values, vec![vec![1, 4], vec![2, 5], vec![3, 6]]);
}

#[test]
fn a_step_with_a_wrong_count_records_nothing_and_names_the_first_culprit() {
    let layout = layout();
    let mut sink: TelemetrySink<u32> = TelemetrySink::new(3, 1);
    assert_eq!(
        sink.record_step(&layout, &vec![vec![1], vec![7], vec![2]]),
        Err(ArityMismatch { component: 1, returned: 1, declared: 0 })
    );
    let channels = sink.finish(layout.specs().clone());
    assert!(channels.iter().all(|channel| channel.values.is_empty()));
}
