//! The state of one metric in an interactive session: whether it has been
//! computed, is being computed, is shown, and its value.
use vstd::prelude::*;

verus! {

/// The planar metrics that a session can compute.
#[derive(Debug, Clone, Copy, PartialEq, Eq, Structural, Hash)]
pub enum PlanarMetric {
    Psnr,
    APsnr,
    PsnrHvs,
    Ssim,
    MsSsim,
}

/// Progress and visibility of one metric.
#[derive(Debug, Clone, Copy, PartialEq, Eq, Structural, Default)]
pub struct MetricState {
    /// A value has been computed.
    pub is_computed: bool,
    /// A computation is running.
    pub is_computing: bool,
    /// The value is shown.
    pub show: bool,
}

impl MetricState {
    /// Clears every flag.
    pub fn reset(&mut self)
        ensures
            *final(self) == (MetricState { is_computed: false, is_computing: false, show: false }),
    {
        self.is_computed = false;
        self.is_computing = false;
        self.show = false;
    }
}

/// A type whose values a session can hold as a metric's result.
pub trait MetricType {}

/// One metric of a session: its name, state and value once computed.
pub struct MetricData<T: MetricType + Clone> {
    /// The metric's name.
    pub name: &'static str,
    /// Progress and visibility.
    pub state: MetricState,
    /// The value, once computed.
    pub value: Option<T>,
}

impl<T: MetricType + Clone> MetricData<T> {
    /// A metric that has not been computed yet.
    pub fn new(name: &'static str) -> (r: Self)
        ensures
            r.name == name,
            r.state == (MetricState { is_computed: false, is_computing: false, show: false }),
            r.value is None,
    {
        MetricData {
            name,
            state: MetricState { is_computed: false, is_computing: false, show: false },
            value: None,
        }
    }

    /// Records a computed value and shows it.
    pub fn update(&mut self, val: T)
        ensures
            final(self).name == old(self).name,
            final(self).state == (MetricState {
                is_computed: true,
                is_computing: old(self).state.is_computing,
                show: true,
            }),
            final(self).value == Some(val),
    {
        self.state.is_computed = true;
        self.state.show = true;
        self.value = Some(val);
    }

    /// Forgets the value and clears the state.
    pub fn reset(&mut self)
        ensures
            final(self).name == old(self).name,
            final(self).state == (MetricState { is_computed: false, is_computing: false, show: false }),
            final(self).value is None,
    {
        self.state.reset();
        self.value = None;
    }
}

} // verus!
