//! Paint animation bookkeeping: which pipelines of which webviews run
//! animations, and which webviews therefore need animation ticks.

use std::collections::HashMap;

use vstd::prelude::*;
use vstd::std_specs::iter::IteratorSpec;

verus! {

broadcast use vstd::std_specs::hash::group_hash_axioms;

/// Identifies a webview.
pub type WebViewId = u64;

/// Identifies a pipeline (a document) within a webview.
pub type PipelineId = u64;

/// The error of an operation on a webview that paint does not know.
#[derive(Debug)]
pub struct UnknownWebView;

/// What a pipeline reports about its running animations.
#[derive(Clone, Copy, Debug, PartialEq, Eq)]
pub enum AnimationState {
    AnimationsPresent,
    AnimationCallbacksPresent,
    NoAnimationsPresent,
    NoAnimationCallbacksPresent,
}

/// The outcome of a change: whether the changed pipeline just started
/// animating, and whether its webview is animating now.
#[derive(Clone, Copy, Debug, Default, PartialEq, Eq)]
pub struct AnimationUpdate {
    pub started_animating: bool,
    pub is_animating: bool,
}

/// The animation state of one pipeline.
#[derive(Clone, Copy, Debug, Default, PartialEq, Eq)]
pub struct PipelineAnimationState {
    pub animations_running: bool,
    pub animation_callbacks_running: bool,
    pub throttled: bool,
}

impl PipelineAnimationState {
    /// An unthrottled pipeline with animations or animation callbacks
    /// running animates.
    pub open spec fn spec_animating(self) -> bool {
        !self.throttled && (self.animations_running || self.animation_callbacks_running)
    }

    pub fn animating(&self) -> (r: bool)
        ensures
            r == self.spec_animating(),
    {
        !self.throttled && (self.animations_running || self.animation_callbacks_running)
    }
}

/// A pipeline that has reported nothing yet.
pub open spec fn idle_pipeline() -> PipelineAnimationState {
    PipelineAnimationState { animations_running: false, animation_callbacks_running: false, throttled: false }
}

/// A pipeline's state after it reports `st`.
pub open spec fn with_state(s: PipelineAnimationState, st: AnimationState) -> PipelineAnimationState {
    match st {
        AnimationState::AnimationsPresent => PipelineAnimationState { animations_running: true, ..s },
        AnimationState::AnimationCallbacksPresent => PipelineAnimationState { animation_callbacks_running: true, ..s },
        AnimationState::NoAnimationsPresent => PipelineAnimationState { animations_running: false, ..s },
        AnimationState::NoAnimationCallbacksPresent => PipelineAnimationState {
            animation_callbacks_running: false,
            ..s
        },
    }
}

/// Some pipeline of `m` animates.
pub open spec fn any_animating(m: Map<PipelineId, PipelineAnimationState>) -> bool {
    exists|p: PipelineId| m.contains_key(p) && (#[trigger] m[p]).spec_animating()
}

/// Whether any pipeline in the map is animating.
fn any_pipeline_animating(m: &HashMap<PipelineId, PipelineAnimationState>) -> (r: bool)
    ensures
        r == any_animating(m@),
{
    let mut found = false;
    for kv in it: m.iter()
        invariant
            it.seq() == vstd::std_specs::hash::spec_hash_map_iter(m).remaining(),
            found == exists|i: int| 0 <= i < it.index() && (*it.seq()[i].1).spec_animating(),
    {
        if kv.1.animating() {
            found = true;
        }
    }
    proof {
        let v = vstd::std_specs::hash::spec_hash_map_iter(m).remaining();
        if found {
            let i = choose|i: int| 0 <= i < v.len() && (*v[i].1).spec_animating();
            assert(m@.contains_key(*v[i].0));
            assert(m@[*v[i].0] == *v[i].1);
        } else {
            assert forall|p: PipelineId| m@.contains_key(p) implies !(#[trigger] m@[p]).spec_animating() by {
                assert(v.contains((&p, &m@[p])));
                let i = choose|i: int| 0 <= i < v.len() && v[i] == (&p, &m@[p]);
                assert(!(*v[i].1).spec_animating());
            }
        }
    }
    found
}


/// The pipelines of webview `w` in the model, none if it is not tracked.
pub open spec fn pipelines_in(
    m: Map<WebViewId, Map<PipelineId, PipelineAnimationState>>,
    w: WebViewId,
) -> Map<PipelineId, PipelineAnimationState> {
    if m.contains_key(w) {
        m[w]
    } else {
        Map::empty()
    }
}

/// The state of pipeline `p` of webview `w`, idle if it is not tracked.
pub open spec fn pipeline_in(
    m: Map<WebViewId, Map<PipelineId, PipelineAnimationState>>,
    w: WebViewId,
    p: PipelineId,
) -> PipelineAnimationState {
    if pipelines_in(m, w).contains_key(p) {
        pipelines_in(m, w)[p]
    } else {
        idle_pipeline()
    }
}

/// The model after pipeline `p` of webview `w` reports `st`.
pub open spec fn after_change(
    m: Map<WebViewId, Map<PipelineId, PipelineAnimationState>>,
    w: WebViewId,
    p: PipelineId,
    st: AnimationState,
) -> Map<WebViewId, Map<PipelineId, PipelineAnimationState>> {
    m.insert(w, pipelines_in(m, w).insert(p, with_state(pipeline_in(m, w, p), st)))
}

/// The model after pipeline `p` of webview `w` is throttled or unthrottled.
pub open spec fn after_throttle(
    m: Map<WebViewId, Map<PipelineId, PipelineAnimationState>>,
    w: WebViewId,
    p: PipelineId,
    throttled: bool,
) -> Map<WebViewId, Map<PipelineId, PipelineAnimationState>> {
    m.insert(w, pipelines_in(m, w).insert(p, PipelineAnimationState { throttled, ..pipeline_in(m, w, p) }))
}

/// The model after pipeline `p` of webview `w` goes away: a webview left
/// without pipelines is no longer tracked.
pub open spec fn after_remove_pipeline(
    m: Map<WebViewId, Map<PipelineId, PipelineAnimationState>>,
    w: WebViewId,
    p: PipelineId,
) -> Map<WebViewId, Map<PipelineId, PipelineAnimationState>> {
    if !m.contains_key(w) {
        m
    } else if m[w].remove(p).is_empty() {
        m.remove(w)
    } else {
        m.insert(w, m[w].remove(p))
    }
}

/// Every tracked webview has a pipeline.
pub open spec fn tracked_webviews_have_pipelines(m: Map<WebViewId, Map<PipelineId, PipelineAnimationState>>) -> bool {
    forall|w: WebViewId| #[trigger] m.contains_key(w) ==> !m[w].is_empty() && m[w].dom().finite()
}

/// Webview `w` is tracked and one of its pipelines animates.
pub open spec fn webview_animating(m: Map<WebViewId, Map<PipelineId, PipelineAnimationState>>, w: WebViewId) -> bool {
    m.contains_key(w) && any_animating(m[w])
}

/// The animation state of the pipelines of one webview.
struct WebViewAnimationState {
    pipelines: HashMap<PipelineId, PipelineAnimationState>,
    animating: bool,
}

impl WebViewAnimationState {
    spec fn wf(&self) -> bool {
        self.animating == any_animating(self.pipelines@)
    }

    fn new() -> (r: Self)
        ensures
            r.wf(),
            r.pipelines@ == Map::<PipelineId, PipelineAnimationState>::empty(),
    {
        WebViewAnimationState { pipelines: HashMap::new(), animating: false }
    }

    fn change_pipeline_running_animations_state(&mut self, pipeline_id: PipelineId, animation_state: AnimationState) -> (r: AnimationUpdate)
        ensures
            final(self).wf(),
            ({
                let old_p = if old(self).pipelines@.contains_key(pipeline_id) {
                    old(self).pipelines@[pipeline_id]
                } else {
                    idle_pipeline()
                };
                let new_p = with_state(old_p, animation_state);
                &&& final(self).pipelines@ == old(self).pipelines@.insert(pipeline_id, new_p)
                &&& r.started_animating == (!old_p.spec_animating() && new_p.spec_animating())
                &&& r.is_animating == any_animating(final(self).pipelines@)
            }),
    {
        let mut pipeline = match self.pipelines.remove(&pipeline_id) {
            Some(p) => p,
            None => PipelineAnimationState { animations_running: false, animation_callbacks_running: false, throttled: false },
        };
        let was_animating = pipeline.animating();
        match animation_state {
            AnimationState::AnimationsPresent => {
                pipeline.animations_running = true;
            },
            AnimationState::AnimationCallbacksPresent => {
                pipeline.animation_callbacks_running = true;
            },
            AnimationState::NoAnimationsPresent => {
                pipeline.animations_running = false;
            },
            AnimationState::NoAnimationCallbacksPresent => {
                pipeline.animation_callbacks_running = false;
            },
        }
        let started_animating = !was_animating && pipeline.animating();
        self.pipelines.insert(pipeline_id, pipeline);
        proof {
            assert(self.pipelines@ =~= old(self).pipelines@.insert(pipeline_id, pipeline));
        }
        self.update_animation_state();
        AnimationUpdate { started_animating, is_animating: self.animating }
    }

    fn set_throttled(&mut self, pipeline_id: PipelineId, throttled: bool) -> (r: AnimationUpdate)
        ensures
            final(self).wf(),
            ({
                let old_p = if old(self).pipelines@.contains_key(pipeline_id) {
                    old(self).pipelines@[pipeline_id]
                } else {
                    idle_pipeline()
                };
                let new_p = PipelineAnimationState { throttled, ..old_p };
                &&& final(self).pipelines@ == old(self).pipelines@.insert(pipeline_id, new_p)
                &&& r.started_animating == (!old_p.spec_animating() && new_p.spec_animating())
                &&& r.is_animating == any_animating(final(self).pipelines@)
            }),
    {
        let mut pipeline = match self.pipelines.remove(&pipeline_id) {
            Some(p) => p,
            None => PipelineAnimationState { animations_running: false, animation_callbacks_running: false, throttled: false },
        };
        let was_animating = pipeline.animating();
        pipeline.throttled = throttled;
        let started_animating = !was_animating && pipeline.animating();
        self.pipelines.insert(pipeline_id, pipeline);
        proof {
            assert(self.pipelines@ =~= old(self).pipelines@.insert(pipeline_id, pipeline));
        }
        self.update_animation_state();
        AnimationUpdate { started_animating, is_animating: self.animating }
    }

    fn remove_pipeline(&mut self, pipeline_id: PipelineId) -> (r: AnimationUpdate)
        ensures
            final(self).wf(),
            final(self).pipelines@ == old(self).pipelines@.remove(pipeline_id),
            r.started_animating == false,
            r.is_animating == any_animating(final(self).pipelines@),
    {
        self.pipelines.remove(&pipeline_id);
        self.update_animation_state();
        AnimationUpdate { started_animating: false, is_animating: self.animating }
    }

    fn update_animation_state(&mut self)
        ensures
            final(self).wf(),
            final(self).pipelines@ == old(self).pipelines@,
    {
        self.animating = any_pipeline_animating(&self.pipelines);
    }

    fn is_empty(&self) -> (r: bool)
        ensures
            r == (self.pipelines@.is_empty() && !self.animating),
    {
        self.pipelines.is_empty() && !self.animating
    }
}

/// Tracks which webviews have animating pipelines.
pub struct AnimationStateTracker {
    webviews: HashMap<WebViewId, WebViewAnimationState>,
}

impl View for AnimationStateTracker {
    type V = Map<WebViewId, Map<PipelineId, PipelineAnimationState>>;

    closed spec fn view(&self) -> Map<WebViewId, Map<PipelineId, PipelineAnimationState>> {
        Map::new(|w: WebViewId| self.webviews@.contains_key(w), |w: WebViewId| self.webviews@[w].pipelines@)
    }
}

impl AnimationStateTracker {
    /// Each tracked webview's animating flag agrees with its pipelines, and
    /// each tracked webview has a pipeline.
    pub closed spec fn wf(&self) -> bool {
        &&& forall|w: WebViewId| #[trigger] self.webviews@.contains_key(w) ==> self.webviews@[w].wf()
        &&& tracked_webviews_have_pipelines(self@)
    }

    /// A tracker with no webviews.
    pub fn new() -> (r: Self)
        ensures
            r.wf(),
            r@ == Map::<WebViewId, Map<PipelineId, PipelineAnimationState>>::empty(),
    {
        let r = AnimationStateTracker { webviews: HashMap::new() };
        assert(r@ =~= Map::<WebViewId, Map<PipelineId, PipelineAnimationState>>::empty());
        r
    }

    /// Records what pipeline `pipeline_id` of webview `webview_id` reports
    /// about its running animations.
    pub fn change_running_animations_state(
        &mut self,
        webview_id: WebViewId,
        pipeline_id: PipelineId,
        animation_state: AnimationState,
    ) -> (r: AnimationUpdate)
        requires
            old(self).wf(),
        ensures
            final(self).wf(),
            final(self)@ == after_change(old(self)@, webview_id, pipeline_id, animation_state),
            r.started_animating == (!pipeline_in(old(self)@, webview_id, pipeline_id).spec_animating()
                && with_state(pipeline_in(old(self)@, webview_id, pipeline_id), animation_state).spec_animating()),
            r.is_animating == webview_animating(final(self)@, webview_id),
    {
        let ghost m = self@;
        let mut webview = match self.webviews.remove(&webview_id) {
            Some(v) => v,
            None => WebViewAnimationState::new(),
        };
        assert(webview.pipelines@ == pipelines_in(m, webview_id));
        let update = webview.change_pipeline_running_animations_state(pipeline_id, animation_state);
        self.webviews.insert(webview_id, webview);
        proof {
            assert(self@ =~= after_change(m, webview_id, pipeline_id, animation_state));
            assert(self@[webview_id].contains_key(pipeline_id));
        }
        update
    }

    /// Throttles or unthrottles pipeline `pipeline_id` of webview
    /// `webview_id`; a throttled pipeline does not animate but keeps its
    /// state.
    pub fn set_throttled(&mut self, webview_id: WebViewId, pipeline_id: PipelineId, throttled: bool) -> (r: AnimationUpdate)
        requires
            old(self).wf(),
        ensures
            final(self).wf(),
            final(self)@ == after_throttle(old(self)@, webview_id, pipeline_id, throttled),
            r.started_animating == (!pipeline_in(old(self)@, webview_id, pipeline_id).spec_animating()
                && PipelineAnimationState { throttled, ..pipeline_in(old(self)@, webview_id, pipeline_id) }.spec_animating()),
            r.is_animating == webview_animating(final(self)@, webview_id),
    {
        let ghost m = self@;
        let mut webview = match self.webviews.remove(&webview_id) {
            Some(v) => v,
            None => WebViewAnimationState::new(),
        };
        assert(webview.pipelines@ == pipelines_in(m, webview_id));
        let update = webview.set_throttled(pipeline_id, throttled);
        self.webviews.insert(webview_id, webview);
        proof {
            assert(self@ =~= after_throttle(m, webview_id, pipeline_id, throttled));
            assert(self@[webview_id].contains_key(pipeline_id));
        }
        update
    }

    /// Forgets pipeline `pipeline_id` of webview `webview_id`.
    pub fn remove_pipeline(&mut self, webview_id: WebViewId, pipeline_id: PipelineId) -> (r: AnimationUpdate)
        requires
            old(self).wf(),
        ensures
            final(self).wf(),
            final(self)@ == after_remove_pipeline(old(self)@, webview_id, pipeline_id),
            r.started_animating == false,
            r.is_animating == (old(self)@.contains_key(webview_id) && any_animating(old(self)@[webview_id].remove(pipeline_id))),
    {
        let ghost m = self@;
        let mut webview = match self.webviews.remove(&webview_id) {
            Some(v) => v,
            None => {
                proof {
                    assert(self@ =~= m);
                }
                return AnimationUpdate { started_animating: false, is_animating: false };
            },
        };
        let update = webview.remove_pipeline(pipeline_id);
        if webview.is_empty() {
            proof {
                assert(self@ =~= m.remove(webview_id));
            }
        } else {
            self.webviews.insert(webview_id, webview);
            proof {
                assert(self@ =~= m.insert(webview_id, m[webview_id].remove(pipeline_id)));
            }
        }
        update
    }

    /// Forgets webview `webview_id`.
    pub fn remove_webview(&mut self, webview_id: WebViewId)
        requires
            old(self).wf(),
        ensures
            final(self).wf(),
            final(self)@ == old(self)@.remove(webview_id),
    {
        self.webviews.remove(&webview_id);
        assert(self@ =~= old(self)@.remove(webview_id));
    }

    /// The webviews with an animating pipeline, each once.
    pub fn animating_webviews(&self) -> (r: Vec<WebViewId>)
        requires
            self.wf(),
        ensures
            r@.no_duplicates(),
            forall|w: WebViewId| r@.contains(w) <==> webview_animating(self@, w),
    {
        let mut out: Vec<WebViewId> = Vec::new();
        for kv in it: self.webviews.iter()
            invariant
                self.wf(),
                it.seq() == vstd::std_specs::hash::spec_hash_map_iter(&self.webviews).remaining(),
                it.seq().no_duplicates(),
                forall|w: WebViewId| out@.contains(w) <==> exists|i: int| 0 <= i < it.index() && *it.seq()[i].0 == w
                    && (*it.seq()[i].1).animating,
                out@.no_duplicates(),
        {
            let ghost k = it.index();
            let ghost v = vstd::std_specs::hash::spec_hash_map_iter(&self.webviews).remaining();
            proof {
                assert(kv == v[k]);
                assert forall|i: int| 0 <= i < k implies *v[i].0 != *kv.0 by {
                    if *v[i].0 == *kv.0 {
                        assert(self.webviews@[*v[i].0] == *v[i].1);
                        assert(self.webviews@[*v[k].0] == *v[k].1);
                        assert(v[i] == v[k]);
                    }
                }
            }
            let ghost before0 = out@;
            if kv.1.animating {
                let ghost before = out@;
                out.push(*kv.0);
                proof {
                    assert(!before.contains(*kv.0));
                    assert forall|w: WebViewId| out@.contains(w) <==> (before.contains(w) || w == *kv.0) by {
                        if out@.contains(w) && w != *kv.0 {
                            let j = choose|j: int| 0 <= j < out@.len() && out@[j] == w;
                            assert(before[j] == w);
                        }
                        if before.contains(w) {
                            let j = choose|j: int| 0 <= j < before.len() && before[j] == w;
                            assert(out@[j] == w);
                        }
                        if w == *kv.0 {
                            assert(out@[before.len() as int] == w);
                        }
                    }
                }
            }
            proof {
                assert forall|w: WebViewId| out@.contains(w) <==> exists|i: int| 0 <= i < k + 1 && *v[i].0 == w
                    && (*v[i].1).animating by {
                    if exists|i: int| 0 <= i < k + 1 && *v[i].0 == w && (*v[i].1).animating {
                        let i = choose|i: int| 0 <= i < k + 1 && *v[i].0 == w && (*v[i].1).animating;
                        if i < k {
                            assert(before0.contains(w));
                        }
                    }
                    if before0.contains(w) {
                        let i = choose|i: int| 0 <= i < k && *v[i].0 == w && (*v[i].1).animating;
                        assert(0 <= i < k + 1);
                    }
                }
            }
        }
        proof {
            let v = vstd::std_specs::hash::spec_hash_map_iter(&self.webviews).remaining();
            assert forall|w: WebViewId| out@.contains(w) <==> webview_animating(self@, w) by {
                if out@.contains(w) {
                    let i = choose|i: int| 0 <= i < v.len() && *v[i].0 == w && (*v[i].1).animating;
                    assert(self.webviews@.contains_key(*v[i].0));
                    assert(self.webviews@[*v[i].0] == *v[i].1);
                }
                if webview_animating(self@, w) {
                    assert(self.webviews@.contains_key(w));
                    assert(v.contains((&w, &self.webviews@[w])));
                }
            }
        }
        out
    }
}

impl Default for AnimationStateTracker {
    fn default() -> (r: Self)
        ensures
            r.wf(),
            r@ == Map::<WebViewId, Map<PipelineId, PipelineAnimationState>>::empty(),
    {
        Self::new()
    }
}


/// Every tracked webview has at least one pipeline: a webview is dropped as
/// soon as its last pipeline goes.
pub proof fn lemma_tracked_webviews_have_pipelines(t: &AnimationStateTracker)
    requires
        t.wf(),
    ensures
        tracked_webviews_have_pipelines(t@),
{
}

/// Throttling and then unthrottling a pipeline that was not throttled gives
/// back the state from before: throttling stops animation without losing
/// state.
pub proof fn lemma_throttle_then_unthrottle(
    m: Map<WebViewId, Map<PipelineId, PipelineAnimationState>>,
    w: WebViewId,
    p: PipelineId,
)
    requires
        m.contains_key(w),
        m[w].contains_key(p),
        !m[w][p].throttled,
    ensures
        after_throttle(after_throttle(m, w, p, true), w, p, false) == m,
        !webview_animating(after_throttle(m, w, p, true), w) || exists|q: PipelineId| q != p && m[w].contains_key(q)
            && (#[trigger] m[w][q]).spec_animating(),
{
    let m1 = after_throttle(m, w, p, true);
    let m2 = after_throttle(m1, w, p, false);
    assert(m2[w] =~= m[w]);
    assert(m2 =~= m);
    if webview_animating(m1, w) {
        let q = choose|q: PipelineId| m1[w].contains_key(q) && (#[trigger] m1[w][q]).spec_animating();
        assert(q != p);
        assert(m1[w][q] == m[w][q]);
    }
}

/// A pipeline that reports animations, unthrottled, makes its webview
/// animate.
pub proof fn lemma_animations_present_animates(
    m: Map<WebViewId, Map<PipelineId, PipelineAnimationState>>,
    w: WebViewId,
    p: PipelineId,
)
    requires
        !pipeline_in(m, w, p).throttled,
    ensures
        webview_animating(after_change(m, w, p, AnimationState::AnimationsPresent), w),
        webview_animating(after_change(m, w, p, AnimationState::AnimationCallbacksPresent), w),
{
    let m1 = after_change(m, w, p, AnimationState::AnimationsPresent);
    assert(m1[w].contains_key(p) && m1[w][p].spec_animating());
    let m2 = after_change(m, w, p, AnimationState::AnimationCallbacksPresent);
    assert(m2[w].contains_key(p) && m2[w][p].spec_animating());
}

/// Removing the only pipeline of a webview stops tracking the webview, and
/// it no longer animates.
pub proof fn lemma_remove_only_pipeline(
    m: Map<WebViewId, Map<PipelineId, PipelineAnimationState>>,
    w: WebViewId,
    p: PipelineId,
)
    requires
        m.contains_key(w),
        m[w].dom() == set![p],
    ensures
        !after_remove_pipeline(m, w, p).contains_key(w),
        !webview_animating(after_remove_pipeline(m, w, p), w),
{
    assert(m[w].remove(p).dom() =~= Set::<PipelineId>::empty());
}

} // verus!
