use clicker_core::wayland::{measurable_outputs, registry_bind_version, OutputState};

#[test]
fn output_description_is_collected_on_done() {
    let mut st = OutputState::new();
    st.on_geometry(300, 200);
    st.on_mode(1920, 1080, true);
    st.on_mode(640, 480, false);
    assert_eq!(st.pending, (300, 200, 1920, 1080));
    st.on_done();
    assert_eq!(st.outputs, vec![(300, 200, 1920, 1080)]);
    assert_eq!(st.pending, (0, 0, 0, 0));
    st.on_mode(800, 600, true);
    st.on_done();
    assert_eq!(st.outputs, vec![(300, 200, 1920, 1080), (0, 0, 800, 600)]);
}

#[test]
fn only_outputs_are_bound_at_most_version_four() {
    assert_eq!(registry_bind_version("wl_output", 5), Some(4));
    assert_eq!(registry_bind_version("wl_output", 3), Some(3));
    assert_eq!(registry_bind_version("wl_seat", 7), None);
}

#[test]
fn outputs_with_unknown_size_are_left_out() {
    let outs = [(300, 200, 1920, 1080), (0, 0, 800, 600), (1, 1, 1, -1), (10, 20, 30, 40)];
    assert_eq!(measurable_outputs(&outs), vec![(300, 200, 1920, 1080), (10, 20, 30, 40)]);
}
