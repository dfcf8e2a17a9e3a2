//! What the Wayland output listener keeps of the outputs it is told about.
use vstd::prelude::*;

verus! {

/// The size of an output: millimetres wide and high, then pixels wide and
/// high.
pub type OutputSize = (i32, i32, i32, i32);

/// The outputs described so far, and the description of the output that is
/// still being sent.
pub struct OutputState {
    pub outputs: Vec<OutputSize>,
    pub pending: OutputSize,
}

/// The wayland output interface's name.
pub open spec fn output_interface() -> Seq<char> {
    "wl_output"@
}

/// The highest version of the output interface that is asked for.
pub const MAX_OUTPUT_VERSION: u32 = 4;

impl OutputState {
    /// No output yet, and an empty description.
    pub fn new() -> (st: OutputState)
        ensures
            st.outputs@ == Seq::<OutputSize>::empty(),
            st.pending == (0i32, 0i32, 0i32, 0i32),
    {
        OutputState { outputs: Vec::new(), pending: (0, 0, 0, 0) }
    }

    /// The physical size of the pending output is set.
    pub fn on_geometry(&mut self, physical_width: i32, physical_height: i32)
        ensures
            final(self).outputs@ == old(self).outputs@,
            final(self).pending == (
                physical_width,
                physical_height,
                old(self).pending.2,
                old(self).pending.3,
            ),
    {
        self.pending.0 = physical_width;
        self.pending.1 = physical_height;
    }

    /// A mode of the pending output: its pixel size is set where it is the
    /// current mode, and ignored otherwise.
    pub fn on_mode(&mut self, width: i32, height: i32, current: bool)
        ensures
            final(self).outputs@ == old(self).outputs@,
            current ==> final(self).pending == (old(self).pending.0, old(self).pending.1, width, height),
            !current ==> final(self).pending == old(self).pending,
    {
        if current {
            self.pending.2 = width;
            self.pending.3 = height;
        }
    }

    /// The pending output is complete: it is added to the outputs, and the
    /// next description starts empty.
    pub fn on_done(&mut self)
        ensures
            final(self).outputs@ == old(self).outputs@.push(old(self).pending),
            final(self).pending == (0i32, 0i32, 0i32, 0i32),
    {
        let done = self.pending;
        self.outputs.push(done);
        self.pending = (0, 0, 0, 0);
    }
}

/// The version at which to bind a global announced with `interface` and
/// `version`: outputs are bound at their version, at most 4; other globals are
/// not bound.
pub fn registry_bind_version(interface: &str, version: u32) -> (bind: Option<u32>)
    ensures
        interface@ == output_interface() ==> bind == Some(
            if version < MAX_OUTPUT_VERSION {
                version
            } else {
                MAX_OUTPUT_VERSION
            },
        ),
        interface@ != output_interface() ==> bind is None,
{
    if crate::text::str_eq(interface, "wl_output") {
        Some(
            if version < MAX_OUTPUT_VERSION {
                version
            } else {
                MAX_OUTPUT_VERSION
            },
        )
    } else {
        None
    }
}

/// Whether every dimension of an output is positive, so that its density can
/// be measured.
pub open spec fn is_measurable(o: OutputSize) -> bool {
    o.0 > 0 && o.1 > 0 && o.2 > 0 && o.3 > 0
}

/// The outputs whose dimensions are all positive, in order.
pub fn measurable_outputs(outputs: &[OutputSize]) -> (kept: Vec<OutputSize>)
    ensures
        kept@ == outputs@.filter(|o: OutputSize| is_measurable(o)),
{
    let mut kept: Vec<OutputSize> = Vec::new();
    let mut i: usize = 0;
    while i < outputs.len()
        invariant
            i <= outputs@.len(),
            kept@ == outputs@.take(i as int).filter(|o: OutputSize| is_measurable(o)),
        decreases outputs@.len() - i,
    {
        reveal_with_fuel(Seq::<_>::filter, 1);
        let o = outputs[i];
        assert(outputs@.take(i + 1).drop_last() =~= outputs@.take(i as int));
        if o.0 > 0 && o.1 > 0 && o.2 > 0 && o.3 > 0 {
            kept.push(o);
        }
        i = i + 1;
    }
    assert(outputs@.take(i as int) =~= outputs@);
    kept
}

} // verus!
