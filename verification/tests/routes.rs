use singeros::routes::{
    compile_probe, require_program_audio_absent, AudioGraph, MicOnly, MicOnlyBus, ProgramMix,
    RouteKind,
};

#[test]
fn mic_only_satisfies_negative_contract() {
    require_program_audio_absent::<MicOnlyBus>();
}

#[test]
fn route_capability_is_a_const_type_parameter() {
    let graph = AudioGraph::<MicOnly>::new();
    let _recorder = graph.attach_recorder();
}

#[test]
fn graphs_report_their_route_kind() {
    assert_eq!(AudioGraph::<MicOnly>::new().route(), RouteKind::MicOnly);
    let mix = AudioGraph::<ProgramMix>::new();
    mix.monitor_only();
    assert_eq!(mix.route(), RouteKind::ProgramMix);
}

#[test]
fn compile_probe_runs_outside_webassembly() {
    compile_probe();
}
