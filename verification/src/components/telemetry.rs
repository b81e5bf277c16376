//! Where each component's telemetry goes, and the per-channel series that
//! collect it.
//!
//! Storage is column-major because that is the output shape: one contiguous
//! time series per channel. Each component's values are scattered into the
//! span of channels it declared, so a component can only ever write to its
//! own channels.

use vstd::prelude::*;

use super::ChannelSpec;

verus! {

/// Number of channels declared by the components whose counts are `counts`.
pub open spec fn channel_total(counts: Seq<usize>) -> int
    decreases counts.len(),
{
    if counts.len() == 0 {
        0
    } else {
        channel_total(counts.drop_last()) + counts.last()
    }
}

/// The channels of every component of a satellite, flattened into one list,
/// with the span of that list that each component owns.
pub struct ChannelLayout {
    specs: Vec<ChannelSpec>,
    offsets: Vec<usize>,
    counts: Vec<usize>,
}

impl ChannelLayout {
    /// Every declared channel, component by component.
    pub closed spec fn channel_specs(&self) -> Seq<ChannelSpec> {
        self.specs@
    }

    /// Index of each component's first channel in [`ChannelLayout::channel_specs`].
    pub closed spec fn offsets(&self) -> Seq<usize> {
        self.offsets@
    }

    /// Number of channels each component declared.
    pub closed spec fn counts(&self) -> Seq<usize> {
        self.counts@
    }

    /// Component `k` begins where the channels of the components before it end,
    /// and the list holds exactly the declared channels.
    pub open spec fn wf(&self) -> bool {
        &&& self.offsets().len() == self.counts().len()
        &&& forall|k: int|
            0 <= k < self.counts().len() ==> #[trigger] self.offsets()[k] == channel_total(
                self.counts().take(k),
            )
        &&& self.channel_specs().len() == channel_total(self.counts())
    }

    /// Whether channel `channel` lies in the span of component `component`.
    pub open spec fn owns(&self, component: int, channel: int) -> bool {
        &&& 0 <= component < self.counts().len()
        &&& self.offsets()[component] <= channel < self.offsets()[component]
            + self.counts()[component]
    }

    /// Lays out the channels of each component, in the order the components
    /// run: component `k`'s channels start where component `k - 1`'s end.
    pub fn new(per_component: Vec<Vec<ChannelSpec>>) -> (layout: ChannelLayout)
        ensures
            layout.wf(),
            layout.counts().len() == per_component@.len(),
            forall|k: int|
                0 <= k < per_component@.len() ==> #[trigger] layout.counts()[k]
                    == per_component@[k]@.len(),
            forall|k: int, j: int|
                0 <= k < per_component@.len() && 0 <= j < per_component@[k]@.len()
                    ==> layout.channel_specs()[layout.offsets()[k] + j]
                    == #[trigger] per_component@[k]@[j],
    {
        let ghost input = per_component@;
        let mut specs: Vec<ChannelSpec> = Vec::new();
        let mut offsets: Vec<usize> = Vec::new();
        let mut counts: Vec<usize> = Vec::new();
        for channels in it: per_component
            invariant
                it.seq() == input,
                offsets@.len() == it.index(),
                counts@.len() == it.index(),
                forall|k: int| 0 <= k < it.index() ==> #[trigger] counts@[k] == input[k]@.len(),
                forall|k: int|
                    0 <= k < it.index() ==> #[trigger] offsets@[k] == channel_total(
                        counts@.take(k),
                    ),
                specs@.len() == channel_total(counts@),
                forall|k: int, j: int|
                    0 <= k < it.index() && 0 <= j < input[k]@.len() ==> specs@[offsets@[k] + j]
                        == #[trigger] input[k]@[j],
        {
            let mut channels = channels;
            let ghost before = specs@;
            let ghost old_counts = counts@;
            let ghost k = it.index() as int;
            offsets.push(specs.len());
            counts.push(channels.len());
            specs.append(&mut channels);
            proof {
                assert(counts@.take(k) == old_counts);
                assert(counts@.drop_last() == old_counts);
                assert forall|m: int| 0 <= m < k + 1 implies #[trigger] offsets@[m]
                    == channel_total(counts@.take(m)) by {
                    if m < k {
                        assert(counts@.take(m) == old_counts.take(m));
                    }
                }
                assert forall|m: int, j: int|
                    0 <= m < k + 1 && 0 <= j < input[m]@.len() implies specs@[offsets@[m] + j]
                    == #[trigger] input[m]@[j] by {
                    if m < k {
                        lemma_offset_within_total(old_counts, m, j);
                        assert(offsets@[m] + j < before.len());
                    }
                }
            }
        }
        ChannelLayout { specs, offsets, counts }
    }

    /// Every declared channel, in layout order.
    pub fn specs(&self) -> (specs: &Vec<ChannelSpec>)
        ensures
            specs@ == self.channel_specs(),
    {
        &self.specs
    }

    /// Number of components laid out.
    pub fn component_count(&self) -> (count: usize)
        ensures
            count == self.counts().len(),
    {
        self.counts.len()
    }

    /// Index of component `component`'s first channel.
    pub fn offset(&self, component: usize) -> (offset: usize)
        requires
            component < self.offsets().len(),
        ensures
            offset == self.offsets()[component as int],
    {
        self.offsets[component]
    }

    /// Number of channels component `component` declared.
    pub fn count(&self, component: usize) -> (count: usize)
        requires
            component < self.counts().len(),
        ensures
            count == self.counts()[component as int],
    {
        self.counts[component]
    }
}

/// A component's span lies within the list of channels.
proof fn lemma_span_within_list(layout: &ChannelLayout, k: int)
    requires
        layout.wf(),
        0 <= k < layout.counts().len(),
    ensures
        layout.offsets()[k] + layout.counts()[k] <= layout.channel_specs().len(),
{
    let counts = layout.counts();
    lemma_total_monotone(counts, k + 1, counts.len() as int);
    assert(counts.take(k + 1).drop_last() == counts.take(k));
    assert(counts.take(counts.len() as int) == counts);
}

/// A component's span ends no later than the last channel.
proof fn lemma_offset_within_total(counts: Seq<usize>, k: int, j: int)
    requires
        0 <= k < counts.len(),
        0 <= j < counts[k],
    ensures
        channel_total(counts.take(k)) + j < channel_total(counts),
    decreases counts.len(),
{
    if k < counts.len() - 1 {
        lemma_offset_within_total(counts.drop_last(), k, j);
        assert(counts.drop_last().take(k) == counts.take(k));
    } else {
        assert(counts.take(k) == counts.drop_last());
    }
}

/// Totals only grow as more components are counted.
proof fn lemma_total_monotone(counts: Seq<usize>, a: int, b: int)
    requires
        0 <= a <= b <= counts.len(),
    ensures
        channel_total(counts.take(a)) <= channel_total(counts.take(b)),
    decreases b - a,
{
    if a < b {
        lemma_total_monotone(counts, a, b - 1);
        assert(counts.take(b).drop_last() == counts.take(b - 1));
    }
}

/// Channels below the total of the first `n` components belong to one of them.
proof fn lemma_owner_exists(layout: &ChannelLayout, n: int, channel: int)
    requires
        layout.wf(),
        0 <= n <= layout.counts().len(),
        0 <= channel < channel_total(layout.counts().take(n)),
    ensures
        exists|k: int| 0 <= k < n && #[trigger] layout.owns(k, channel),
    decreases n,
{
    let counts = layout.counts();
    if n > 0 {
        assert(counts.take(n).drop_last() == counts.take(n - 1));
        if channel < channel_total(counts.take(n - 1)) {
            lemma_owner_exists(layout, n - 1, channel);
            let k = choose|k: int| 0 <= k < n - 1 && #[trigger] layout.owns(k, channel);
            assert(layout.owns(k, channel));
        } else {
            assert(layout.offsets()[n - 1] == channel_total(counts.take(n - 1)));
            assert(layout.owns(n - 1, channel));
        }
    }
}

/// Every channel of a satellite belongs to exactly one component: the spans
/// that components own cover the flattened list without overlapping, so no
/// component's values can land in another component's series.
pub proof fn lemma_channel_has_one_owner(layout: &ChannelLayout, channel: int)
    requires
        layout.wf(),
        0 <= channel < layout.channel_specs().len(),
    ensures
        exists|k: int| #[trigger] layout.owns(k, channel),
        forall|k1: int, k2: int|
            #[trigger] layout.owns(k1, channel) && #[trigger] layout.owns(k2, channel) ==> k1
                == k2,
{
    let counts = layout.counts();
    assert(counts.take(counts.len() as int) == counts);
    lemma_owner_exists(layout, counts.len() as int, channel);
    assert forall|k1: int, k2: int|
        #[trigger] layout.owns(k1, channel) && #[trigger] layout.owns(k2, channel) implies k1
        == k2 by {
        if k1 < k2 {
            lemma_total_monotone(counts, k1 + 1, k2);
            assert(counts.take(k1 + 1).drop_last() == counts.take(k1));
        } else if k2 < k1 {
            lemma_total_monotone(counts, k2 + 1, k1);
            assert(counts.take(k2 + 1).drop_last() == counts.take(k2));
        }
    }
}

/// The series after appending `values` to channels `first ..`, one value each.
pub open spec fn recorded<T>(series: Seq<Seq<T>>, first: int, values: Seq<T>) -> Seq<Seq<T>> {
    Seq::new(
        series.len(),
        |c: int|
            if first <= c < first + values.len() {
                series[c].push(values[c - first])
            } else {
                series[c]
            },
    )
}

/// A component returned a number of values other than the number of channels
/// it declared.
#[derive(Clone, Copy, PartialEq, Eq, Structural, Debug)]
pub struct ArityMismatch {
    /// Position of the component in the layout.
    pub component: usize,
    /// How many values it returned.
    pub returned: usize,
    /// How many channels it declared.
    pub declared: usize,
}

/// One channel's full time series over the simulated window.
///
/// `values` is parallel to the sample grid: entry `i` is the value at sample `i`.
#[derive(Debug)]
pub struct TelemetryChannel<T> {
    pub spec: ChannelSpec,
    pub values: Vec<T>,
}

/// Collects the per-step values into one series per channel.
pub struct TelemetrySink<T> {
    series: Vec<Vec<T>>,
}

impl<T> TelemetrySink<T> {
    /// The values collected so far, one sequence per channel.
    pub closed spec fn series(&self) -> Seq<Seq<T>> {
        self.series@.map_values(|values: Vec<T>| values@)
    }

    /// A sink for `channel_count` channels, each empty and with room for
    /// `sample_count` values.
    pub fn new(channel_count: usize, sample_count: usize) -> (sink: Self)
        ensures
            sink.series() == Seq::new(channel_count as nat, |c: int| Seq::<T>::empty()),
    {
        let mut series: Vec<Vec<T>> = Vec::new();
        for c in 0..channel_count
            invariant
                series@.len() == c,
                forall|i: int| 0 <= i < c ==> (#[trigger] series@[i])@ == Seq::<T>::empty(),
        {
            series.push(Vec::with_capacity(sample_count));
        }
        let sink = TelemetrySink { series };
        assert(sink.series() == Seq::new(channel_count as nat, |c: int| Seq::<T>::empty()));
        sink
    }

    /// Appends one component's values for the current step, starting at the
    /// channel index reserved for that component.
    pub fn record(&mut self, first_channel: usize, values: &[T])
        where T: Copy,
        requires
            values@.len() == 0 || first_channel + values@.len() <= old(self).series().len(),
        ensures
            final(self).series() == recorded(old(self).series(), first_channel as int, values@),
    {
        let ghost start = self.series();
        let channel_count = self.series.len();
        assert(start =~= recorded(start, first_channel as int, values@.take(0)));
        let mut offset: usize = 0;
        while offset < values.len()
            invariant
                channel_count == self.series@.len(),
                values@.len() == 0 || first_channel + values@.len() <= channel_count,
                0 <= offset <= values@.len(),
                self.series() == recorded(start, first_channel as int, values@.take(offset as int)),
            decreases values@.len() - offset,
        {
            let value = values[offset];
            let channel = first_channel + offset;
            let ghost prev = self.series();
            assert(prev.len() == channel_count);
            assert(values@.take(offset as int).len() == offset);
            assert(prev[channel as int] == start[channel as int]);
            let mut column: Vec<T> = Vec::new();
            self.series.set_and_swap(channel, &mut column);
            column.push(value);
            self.series.set_and_swap(channel, &mut column);
            offset = offset + 1;
            proof {
                let target = recorded(start, first_channel as int, values@.take(offset as int));
                assert(self.series().len() == channel_count);
                assert forall|c: int| 0 <= c < self.series().len() implies #[trigger] self.series()[c]
                    == target[c] by {
                    if c == channel {
                        assert(values@.take(offset as int)[c - first_channel] == value);
                        assert(self.series()[c] == prev[c].push(value));
                    } else {
                        assert(self.series()[c] == prev[c]);
                    }
                }
                assert(self.series() =~= target);
            }
        }
        assert(values@.take(values@.len() as int) == values@);
        assert(self.series() =~= recorded(start, first_channel as int, values@));
    }

    /// Records what component `component` of `layout` returned for this step.
    ///
    /// The values go to the channels the component declared, one each, and
    /// nowhere else. A component that returned a number of values other than
    /// the number of channels it declared has a bug: nothing is recorded and
    /// the mismatch is reported, so the caller can name the culprit instead of
    /// letting its values shift into a neighbouring component's series.
    pub fn record_component(
        &mut self,
        layout: &ChannelLayout,
        component: usize,
        values: &[T],
    ) -> (result: Result<(), ArityMismatch>)
        where T: Copy,
        requires
            layout.wf(),
            component < layout.counts().len(),
            old(self).series().len() == layout.channel_specs().len(),
        ensures
            values@.len() == layout.counts()[component as int] ==> result is Ok
                && final(self).series() == recorded(
                old(self).series(),
                layout.offsets()[component as int] as int,
                values@,
            ),
            values@.len() != layout.counts()[component as int] ==> result == Err::<(), ArityMismatch>(
                ArityMismatch {
                    component,
                    returned: values@.len() as usize,
                    declared: layout.counts()[component as int],
                },
            ) && final(self).series() == old(self).series(),
    {
        let declared = layout.count(component);
        if values.len() != declared {
            return Err(ArityMismatch { component, returned: values.len(), declared });
        }
        proof {
            lemma_span_within_list(layout, component as int);
        }
        self.record(layout.offset(component), values);
        Ok(())
    }

    /// Records what every component of `layout` returned for one sample:
    /// `values[k]` from component `k`.
    ///
    /// When every component returned one value per declared channel, each
    /// value goes to its channel and every series grows by exactly one, so the
    /// series stay parallel to the sample grid. Otherwise nothing is recorded
    /// and the first component (in layout order) with the wrong count is
    /// reported.
    pub fn record_step(&mut self, layout: &ChannelLayout, values: &Vec<Vec<T>>) -> (result: Result<
        (),
        ArityMismatch,
    >)
        where T: Copy,
        requires
            layout.wf(),
            old(self).series().len() == layout.channel_specs().len(),
            values@.len() == layout.counts().len(),
        ensures
            step_arities_match(layout, values@) ==> {
                &&& result is Ok
                &&& final(self).series() == recorded_components(
                    old(self).series(),
                    layout,
                    step_values(values@),
                    values@.len() as int,
                )
                &&& final(self).series().len() == old(self).series().len()
                &&& forall|k: int, j: int|
                    0 <= k < values@.len() && 0 <= j < values@[k]@.len()
                        ==> #[trigger] final(self).series()[layout.offsets()[k] + j]
                        == old(self).series()[layout.offsets()[k] + j].push(values@[k]@[j])
                &&& forall|c: int|
                    0 <= c < old(self).series().len() ==> (#[trigger] final(self).series()[c]).len()
                        == old(self).series()[c].len() + 1
            },
            !step_arities_match(layout, values@) ==> {
                &&& final(self).series() == old(self).series()
                &&& result matches Err(mismatch) && {
                    let k = mismatch.component as int;
                    &&& 0 <= k < values@.len()
                    &&& mismatch.returned == values@[k]@.len()
                    &&& mismatch.declared == layout.counts()[k]
                    &&& mismatch.returned != mismatch.declared
                    &&& forall|i: int| 0 <= i < k ==> #[trigger] values@[i]@.len() == layout.counts()[i]
                }
            },
    {
        let count = values.len();
        let mut k: usize = 0;
        while k < count
            invariant
                layout.wf(),
                count == values@.len(),
                values@.len() == layout.counts().len(),
                k <= count,
                forall|i: int| 0 <= i < k ==> #[trigger] values@[i]@.len() == layout.counts()[i],
            decreases count - k,
        {
            let declared = layout.count(k);
            if values[k].len() != declared {
                return Err(ArityMismatch { component: k, returned: values[k].len(), declared });
            }
            k = k + 1;
        }
        let ghost start = self.series();
        let ghost all = step_values(values@);
        let mut k: usize = 0;
        while k < count
            invariant
                layout.wf(),
                count == values@.len(),
                values@.len() == layout.counts().len(),
                all == step_values(values@),
                start.len() == layout.channel_specs().len(),
                forall|i: int| 0 <= i < count ==> #[trigger] values@[i]@.len() == layout.counts()[i],
                k <= count,
                self.series() == recorded_components(start, layout, all, k as int),
            decreases count - k,
        {
            proof {
                lemma_span_within_list(layout, k as int);
                lemma_recorded_components_len(start, layout, all, k as int);
            }
            self.record(layout.offset(k), values[k].as_slice());
            k = k + 1;
        }
        proof {
            lemma_full_step_extends_every_series(start, layout, all);
        }
        Ok(())
    }

    /// Pairs the collected series with the specs they belong to, in order; a
    /// spec or series without a partner is dropped.
    pub fn finish(self, specs: Vec<ChannelSpec>) -> (channels: Vec<TelemetryChannel<T>>)
        ensures
            channels@.len() == if specs@.len() <= self.series().len() {
                specs@.len()
            } else {
                self.series().len()
            },
            forall|i: int|
                0 <= i < channels@.len() ==> (#[trigger] channels@[i]).spec == specs@[i]
                    && channels@[i].values@ == self.series()[i],
    {
        let ghost all_series = self.series@;
        let ghost all_specs = specs@;
        let ghost n = all_series.len();
        let mut remaining = self.series;
        let mut reversed: Vec<Vec<T>> = Vec::new();
        assert(all_series.take(n as int) == all_series);
        while remaining.len() > 0
            invariant
                n == all_series.len(),
                remaining@ == all_series.take(remaining@.len() as int),
                reversed@.len() + remaining@.len() == n,
                forall|i: int|
                    0 <= i < reversed@.len() ==> #[trigger] reversed@[i] == all_series[n - 1 - i],
            decreases remaining@.len(),
        {
            let ghost before = remaining@;
            let column = remaining.pop().unwrap();
            assert(column == before[before.len() - 1]);
            reversed.push(column);
            assert(remaining@ == all_series.take(remaining@.len() as int));
        }
        let mut channels: Vec<TelemetryChannel<T>> = Vec::new();
        for spec in it: specs
            invariant
                n == all_series.len(),
                it.seq() == all_specs,
                channels@.len() == if it.index() <= n { it.index() as int } else { n as int },
                reversed@.len() == n - channels@.len(),
                forall|i: int|
                    0 <= i < reversed@.len() ==> #[trigger] reversed@[i] == all_series[n - 1 - i],
                forall|i: int|
                    0 <= i < channels@.len() ==> (#[trigger] channels@[i]).spec == all_specs[i]
                        && channels@[i].values == all_series[i],
        {
            match reversed.pop() {
                Some(values) => {
                    channels.push(TelemetryChannel { spec, values });
                },
                None => {},
            }
        }
        channels
    }
}

/// The series after each of the first `n` components of `layout` has
/// recorded its values for one step, in order.
pub open spec fn recorded_components<T>(
    series: Seq<Seq<T>>,
    layout: &ChannelLayout,
    values: Seq<Seq<T>>,
    n: int,
) -> Seq<Seq<T>>
    decreases n,
{
    if n <= 0 {
        series
    } else {
        recorded(
            recorded_components(series, layout, values, n - 1),
            layout.offsets()[n - 1] as int,
            values[n - 1],
        )
    }
}

/// Whether every component returned one value per declared channel.
pub open spec fn step_arities_match<T>(layout: &ChannelLayout, values: Seq<Vec<T>>) -> bool {
    forall|k: int| 0 <= k < values.len() ==> #[trigger] values[k]@.len() == layout.counts()[k]
}

/// The values of one step, component by component.
pub open spec fn step_values<T>(values: Seq<Vec<T>>) -> Seq<Seq<T>> {
    values.map_values(|component: Vec<T>| component@)
}

/// Recording never changes the number of channels.
proof fn lemma_recorded_components_len<T>(
    series: Seq<Seq<T>>,
    layout: &ChannelLayout,
    values: Seq<Seq<T>>,
    n: int,
)
    ensures
        recorded_components(series, layout, values, n).len() == series.len(),
    decreases n,
{
    if n > 0 {
        lemma_recorded_components_len(series, layout, values, n - 1);
    }
}

/// What the first `n` components of one step leave in the series.
proof fn lemma_components_recorded<T>(
    series: Seq<Seq<T>>,
    layout: &ChannelLayout,
    values: Seq<Seq<T>>,
    n: int,
)
    requires
        layout.wf(),
        series.len() == layout.channel_specs().len(),
        values.len() == layout.counts().len(),
        forall|k: int| 0 <= k < values.len() ==> (#[trigger] values[k]).len() == layout.counts()[k],
        0 <= n <= layout.counts().len(),
    ensures
        recorded_components(series, layout, values, n).len() == series.len(),
        forall|k: int, j: int|
            0 <= k < n && 0 <= j < layout.counts()[k] ==> #[trigger] recorded_components(
                series,
                layout,
                values,
                n,
            )[layout.offsets()[k] + j] == series[layout.offsets()[k] + j].push(values[k][j]),
        forall|c: int|
            channel_total(layout.counts().take(n)) <= c < series.len() ==> #[trigger] recorded_components(
                series,
                layout,
                values,
                n,
            )[c] == series[c],
    decreases n,
{
    let counts = layout.counts();
    if n > 0 {
        lemma_components_recorded(series, layout, values, n - 1);
        let before = recorded_components(series, layout, values, n - 1);
        let after = recorded_components(series, layout, values, n);
        let start = layout.offsets()[n - 1] as int;
        assert(counts.take(n).drop_last() == counts.take(n - 1));
        assert(start == channel_total(counts.take(n - 1)));
        lemma_span_within_list(layout, n - 1);
        assert forall|k: int, j: int| 0 <= k < n && 0 <= j < counts[k] implies #[trigger] after[layout.offsets()[k] + j]
            == series[layout.offsets()[k] + j].push(values[k][j]) by {
            if k < n - 1 {
                lemma_offset_within_total(counts.take(n - 1), k, j);
                assert(counts.take(n - 1).take(k) == counts.take(k));
            }
        }
    }
}

/// Recording one full step extends every channel's series by exactly one
/// value, the one its owning component returned: when every component
/// returns one value per declared channel, every series stays parallel to
/// the sample grid.
pub proof fn lemma_full_step_extends_every_series<T>(
    series: Seq<Seq<T>>,
    layout: &ChannelLayout,
    values: Seq<Seq<T>>,
)
    requires
        layout.wf(),
        series.len() == layout.channel_specs().len(),
        values.len() == layout.counts().len(),
        forall|k: int| 0 <= k < values.len() ==> (#[trigger] values[k]).len() == layout.counts()[k],
    ensures
        ({
            let after = recorded_components(series, layout, values, values.len() as int);
            &&& after.len() == series.len()
            &&& forall|k: int, j: int|
                0 <= k < values.len() && 0 <= j < values[k].len()
                    ==> #[trigger] after[layout.offsets()[k] + j] == series[layout.offsets()[k]
                    + j].push(values[k][j])
            &&& forall|c: int| 0 <= c < series.len() ==> (#[trigger] after[c]).len() == series[c].len() + 1
        }),
{
    let n = values.len() as int;
    lemma_components_recorded(series, layout, values, n);
    let after = recorded_components(series, layout, values, n);
    assert forall|c: int| 0 <= c < series.len() implies (#[trigger] after[c]).len() == series[c].len() + 1 by {
        lemma_channel_has_one_owner(layout, c);
        let k = choose|k: int| #[trigger] layout.owns(k, c);
        let j = c - layout.offsets()[k];
        assert(after[layout.offsets()[k] + j] == series[layout.offsets()[k] + j].push(values[k][j]));
    }
}

/// The series after recording `calls` in order, each call a first channel
/// and the values given to [`TelemetrySink::record`].
pub open spec fn recorded_calls<T>(series: Seq<Seq<T>>, calls: Seq<(int, Seq<T>)>) -> Seq<Seq<T>>
    decreases calls.len(),
{
    if calls.len() == 0 {
        series
    } else {
        recorded(recorded_calls(series, calls.drop_last()), calls.last().0, calls.last().1)
    }
}

/// The values that `calls` direct to channel `channel`, in call order.
pub open spec fn values_for_channel<T>(calls: Seq<(int, Seq<T>)>, channel: int) -> Seq<T>
    decreases calls.len(),
{
    if calls.len() == 0 {
        Seq::empty()
    } else {
        let before = values_for_channel(calls.drop_last(), channel);
        let (first, values) = calls.last();
        if first <= channel < first + values.len() {
            before.push(values[channel - first])
        } else {
            before
        }
    }
}

/// A sink of `channel_count` channels fresh from [`TelemetrySink::new`], after
/// any sequence of [`TelemetrySink::record`] calls, holds in each channel
/// exactly the values those calls gave it, in call order (none for a channel
/// no call reached); [`TelemetrySink::finish`] hands those series out, each
/// paired with its spec.
pub proof fn lemma_recorded_calls_collect_in_order<T>(
    channel_count: nat,
    calls: Seq<(int, Seq<T>)>,
)
    ensures
        ({
            let series = recorded_calls(
                Seq::new(channel_count, |c: int| Seq::<T>::empty()),
                calls,
            );
            &&& series.len() == channel_count
            &&& forall|c: int|
                0 <= c < channel_count ==> #[trigger] series[c] == values_for_channel(calls, c)
        }),
    decreases calls.len(),
{
    if calls.len() > 0 {
        lemma_recorded_calls_collect_in_order(channel_count, calls.drop_last());
    }
}

} // verus!
