use photo_editor::worker::{plan_batch, superseded, CmdKind};

#[test]
fn a_later_render_or_load_supersedes_a_render() {
    assert!(superseded(CmdKind::Render, &[CmdKind::Export, CmdKind::Render]));
    assert!(superseded(CmdKind::Render, &[CmdKind::Load]));
    assert!(!superseded(CmdKind::Render, &[CmdKind::RenderRegion, CmdKind::Export]));
    assert!(superseded(CmdKind::RenderRegion, &[CmdKind::RenderRegion]));
    assert!(!superseded(CmdKind::RenderRegion, &[CmdKind::Render]));
}

#[test]
fn loads_exports_and_samples_always_run() {
    let all = [CmdKind::Load, CmdKind::Render, CmdKind::RenderRegion, CmdKind::Export, CmdKind::SampleNeutral];
    assert!(!superseded(CmdKind::Load, &all));
    assert!(!superseded(CmdKind::Export, &all));
    assert!(!superseded(CmdKind::SampleNeutral, &all));
    assert!(!superseded(CmdKind::Render, &[]));
}

#[test]
fn a_batch_runs_only_the_newest_renders() {
    let batch = [
        CmdKind::Render,
        CmdKind::Render,
        CmdKind::Export,
        CmdKind::RenderRegion,
        CmdKind::Load,
        CmdKind::RenderRegion,
        CmdKind::Render,
    ];
    assert_eq!(plan_batch(&batch), vec![false, false, true, false, true, true, true]);
    assert!(plan_batch(&[]).is_empty());
}
