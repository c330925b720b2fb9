//! Which queued render-worker commands are stale: a later render (or a
//! load) makes an earlier render of the same kind pointless, so only the
//! newest slider state is rendered.

use vstd::prelude::*;

verus! {

/// The kinds of command the render worker takes.
#[derive(Clone, Copy, PartialEq, Eq, Debug, Structural)]
pub enum CmdKind {
    /// Decode a photo and render it.
    Load,
    /// Re-render the preview.
    Render,
    /// Render a zoomed-in region of the full-resolution image.
    RenderRegion,
    /// Full-resolution render and encode.
    Export,
    /// White-balance eyedropper sample.
    SampleNeutral,
}

/// Whether a command of kind `later`, queued after one of kind `kind`,
/// makes it pointless.
pub open spec fn supersedes(later: CmdKind, kind: CmdKind) -> bool {
    match kind {
        CmdKind::Render => later == CmdKind::Render || later == CmdKind::Load,
        CmdKind::RenderRegion => later == CmdKind::RenderRegion || later == CmdKind::Load,
        _ => false,
    }
}

/// Whether some command in `later` supersedes one of kind `kind`.
pub open spec fn stale(kind: CmdKind, later: Seq<CmdKind>) -> bool {
    exists|i: int| 0 <= i < later.len() && supersedes(#[trigger] later[i], kind)
}

/// Whether a command of kind `kind` can be dropped because `later` (the
/// commands queued after it) holds a newer render of the same kind, or a
/// load.
pub fn superseded(kind: CmdKind, later: &[CmdKind]) -> (r: bool)
    ensures
        r == stale(kind, later@),
{
    let mut i: usize = 0;
    while i < later.len()
        invariant
            i <= later@.len(),
            forall|j: int| 0 <= j < i ==> !supersedes(#[trigger] later@[j], kind),
        decreases later@.len() - i,
    {
        let m = later[i];
        let hit = match kind {
            CmdKind::Render => m == CmdKind::Render || m == CmdKind::Load,
            CmdKind::RenderRegion => m == CmdKind::RenderRegion || m == CmdKind::Load,
            _ => false,
        };
        if hit {
            assert(supersedes(later@[i as int], kind));
            return true;
        }
        i += 1;
    }
    false
}

/// For a batch of commands drained from the queue, in arrival order,
/// which ones to run: each one that nothing queued after it supersedes.
pub fn plan_batch(kinds: &[CmdKind]) -> (r: Vec<bool>)
    ensures
        r@.len() == kinds@.len(),
        forall|i: int|
            0 <= i < kinds@.len() ==> r@[i] == !stale(
                kinds@[i],
                kinds@.subrange(i + 1, kinds@.len() as int),
            ),
{
    let n = kinds.len();
    let mut out: Vec<bool> = Vec::new();
    let mut i: usize = 0;
    while i < n
        invariant
            n == kinds@.len(),
            i <= n,
            out@.len() == i,
            forall|j: int|
                0 <= j < i ==> out@[j] == !stale(
                    kinds@[j],
                    kinds@.subrange(j + 1, kinds@.len() as int),
                ),
        decreases n - i,
    {
        let (_, later) = kinds.split_at(i + 1);
        let drop = superseded(kinds[i], later);
        out.push(!drop);
        i += 1;
    }
    out
}

/// Loads, exports and eyedropper samples are never dropped, nor is the last
/// command queued: the newest request always runs.
pub proof fn lemma_never_dropped(kind: CmdKind, later: Seq<CmdKind>)
    requires
        later.len() == 0 || kind == CmdKind::Load || kind == CmdKind::Export || kind
            == CmdKind::SampleNeutral,
    ensures
        !stale(kind, later),
{
}

/// The newest command of a batch always runs.
pub proof fn lemma_newest_in_batch_runs(kinds: Seq<CmdKind>)
    requires
        kinds.len() > 0,
    ensures
        !stale(kinds[kinds.len() - 1], kinds.subrange(kinds.len() as int, kinds.len() as int)),
{
}

/// A render is dropped exactly when a newer render or a load follows it,
/// so the last render queued after the last load always runs.
pub proof fn lemma_last_render_runs(later: Seq<CmdKind>)
    requires
        forall|i: int| 0 <= i < later.len() ==> later[i] != CmdKind::Render && later[i]
            != CmdKind::Load,
    ensures
        !stale(CmdKind::Render, later),
{
}

} // verus!
