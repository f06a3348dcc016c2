//! The pointer-event layer: hook registrations on bins, the dispatcher
//! state (focused bin, hovered bin set), and the firing plans computed for
//! each input event.
//!
//! Callbacks themselves live outside the crate: a dispatch call returns the
//! exact ordered list of (bin, hook, trigger) firings, and the embedding
//! invokes the callbacks it keeps under those keys. Dispatcher state is
//! updated before the plan is handed out, so a callback that mutates styles
//! cannot corrupt focus or hover bookkeeping.

use vstd::prelude::*;
use crate::interface::index_of_id;

verus! {

/// A mouse button.
#[derive(Clone, Copy, Debug, PartialEq, Eq, Structural)]
pub enum MouseButton {
    Left,
    Right,
    Middle,
}

/// What a hook fired for.
#[derive(Clone, Copy, Debug, PartialEq, Eq, Structural)]
pub enum HookTrigger {
    MousePress,
    MouseScroll,
    MouseMove,
    MouseEnter,
    MouseLeave,
    Focus,
    LostFocus,
}

/// A hook registration: which triggers it listens to. `mouse_press` lists
/// the buttons it accepts.
#[derive(Clone, Debug)]
pub struct Hook {
    pub id: u64,
    pub mouse_press: Vec<MouseButton>,
    pub mouse_scroll: bool,
    pub mouse_move: bool,
    pub mouse_enter: bool,
    pub mouse_leave: bool,
    pub on_focus: bool,
    pub lost_focus: bool,
}

/// One planned callback invocation.
#[derive(Clone, Copy, Debug, PartialEq, Eq, Structural)]
pub struct HookFire {
    pub bin_id: u64,
    pub hook_id: u64,
    pub trigger: HookTrigger,
}

/// The dispatcher state: the focused bin and the hovered bin set, kept
/// sorted by id.
pub struct EventsData {
    pub focused: Option<u64>,
    pub mouse_in: Vec<u64>,
}

/// Whether a hook listens to a trigger; a press additionally requires the
/// pressed button to be among the hook's accepted buttons.
pub open spec fn hook_listens(h: Hook, t: HookTrigger, button: Option<MouseButton>) -> bool {
    match t {
        HookTrigger::MousePress => match button {
            Some(btn) => h.mouse_press@.contains(btn),
            None => false,
        },
        HookTrigger::MouseScroll => h.mouse_scroll,
        HookTrigger::MouseMove => h.mouse_move,
        HookTrigger::MouseEnter => h.mouse_enter,
        HookTrigger::MouseLeave => h.mouse_leave,
        HookTrigger::Focus => h.on_focus,
        HookTrigger::LostFocus => h.lost_focus,
    }
}

/// The firings of one bin's hooks for a trigger, in registration order,
/// starting at hook index `k`.
pub open spec fn bin_fires_from(
    b: crate::interface::Bin,
    t: HookTrigger,
    button: Option<MouseButton>,
    k: int,
) -> Seq<HookFire>
    decreases b.hooks@.len() - k,
{
    if k < 0 || k >= b.hooks@.len() {
        Seq::empty()
    } else {
        let head: Seq<HookFire> = if hook_listens(b.hooks@[k], t, button) {
            seq![HookFire { bin_id: b.id, hook_id: b.hooks@[k].id, trigger: t }]
        } else {
            Seq::empty()
        };
        head + bin_fires_from(b, t, button, k + 1)
    }
}

/// The firings of one bin's hooks for a trigger, in registration order.
pub open spec fn bin_fires(
    b: crate::interface::Bin,
    t: HookTrigger,
    button: Option<MouseButton>,
) -> Seq<HookFire> {
    bin_fires_from(b, t, button, 0)
}

/// The firings of the bin carrying `id`, or none when no bin carries it.
pub open spec fn fires_of_id(
    bins: Seq<crate::interface::Bin>,
    id: u64,
    t: HookTrigger,
    button: Option<MouseButton>,
) -> Seq<HookFire> {
    match crate::interface::index_of_id(bins, id) {
        Some(i) => bin_fires(bins[i], t, button),
        None => Seq::empty(),
    }
}

/// Whether `v` holds `b`.
pub(crate) fn buttons_contain(v: &Vec<MouseButton>, b: MouseButton) -> (r: bool)
    ensures
        r == v@.contains(b),
{
    let n = v.len();
    let mut i: usize = 0;
    while i < n
        invariant
            n == v@.len(),
            0 <= i <= n,
            forall|j: int| 0 <= j < i ==> v@[j] != b,
        decreases n - i,
    {
        if v[i] == b {
            return true;
        }
        i = i + 1;
    }
    false
}

/// Whether `v` holds `id`.
pub(crate) fn ids_contain(v: &Vec<u64>, id: u64) -> (r: bool)
    ensures
        r == v@.contains(id),
{
    let n = v.len();
    let mut i: usize = 0;
    while i < n
        invariant
            n == v@.len(),
            0 <= i <= n,
            forall|j: int| 0 <= j < i ==> v@[j] != id,
        decreases n - i,
    {
        if v[i] == id {
            return true;
        }
        i = i + 1;
    }
    false
}

/// Appends the firings of one bin's hooks for a trigger to `out`.
pub(crate) fn push_bin_fires(
    out: &mut Vec<HookFire>,
    b: &crate::interface::Bin,
    t: HookTrigger,
    button: Option<MouseButton>,
)
    ensures
        final(out)@ == old(out)@ + bin_fires(*b, t, button),
{
    let ghost base = out@;
    let n = b.hooks.len();
    let mut k: usize = 0;
    while k < n
        invariant
            n == b.hooks@.len(),
            0 <= k <= n,
            out@ + bin_fires_from(*b, t, button, k as int) == base + bin_fires(*b, t, button),
        decreases n - k,
    {
        let h = &b.hooks[k];
        let listens = match t {
            HookTrigger::MousePress => match button {
                Some(btn) => buttons_contain(&h.mouse_press, btn),
                None => false,
            },
            HookTrigger::MouseScroll => h.mouse_scroll,
            HookTrigger::MouseMove => h.mouse_move,
            HookTrigger::MouseEnter => h.mouse_enter,
            HookTrigger::MouseLeave => h.mouse_leave,
            HookTrigger::Focus => h.on_focus,
            HookTrigger::LostFocus => h.lost_focus,
        };
        let ghost pre = out@;
        if listens {
            out.push(HookFire { bin_id: b.id, hook_id: h.id, trigger: t });
        }
        proof {
            let head: Seq<HookFire> = if hook_listens(b.hooks@[k as int], t, button) {
                seq![HookFire { bin_id: b.id, hook_id: b.hooks@[k as int].id, trigger: t }]
            } else {
                Seq::empty()
            };
            assert(out@ =~= pre + head);
            assert(out@ + bin_fires_from(*b, t, button, k as int + 1) =~= pre + bin_fires_from(
                *b,
                t,
                button,
                k as int,
            ));
        }
        k = k + 1;
    }
    proof {
        assert(out@ =~= out@ + bin_fires_from(*b, t, button, n as int));
    }
}

/// The firings of the currently focused bin, or none when nothing has
/// focus.
pub open spec fn fires_of_focused(
    bins: Seq<crate::interface::Bin>,
    focused: Option<u64>,
    t: HookTrigger,
    button: Option<MouseButton>,
) -> Seq<HookFire> {
    match focused {
        Some(fid) => fires_of_id(bins, fid, t, button),
        None => Seq::empty(),
    }
}

/// What a press at the topmost bin `top` does to focus, and which hooks
/// fire: when the hit bin differs from the focused one, the old focus's
/// lost-focus hooks fire, then the new focus's focus hooks, and focus
/// moves; with no bin hit, focus is unchanged. The (possibly new) focused
/// bin's press hooks matching the button then fire.
pub open spec fn press_plan(
    bins: Seq<crate::interface::Bin>,
    focused0: Option<u64>,
    top: Option<int>,
    button: MouseButton,
) -> (Seq<HookFire>, Option<u64>) {
    let step = match top {
        Some(ti) => {
            if 0 <= ti < bins.len() {
                let tid = bins[ti].id;
                if focused0 != Some(tid) {
                    (
                        fires_of_focused(bins, focused0, HookTrigger::LostFocus, None) + bin_fires(
                            bins[ti],
                            HookTrigger::Focus,
                            None,
                        ),
                        Some(tid),
                    )
                } else {
                    (Seq::<HookFire>::empty(), focused0)
                }
            } else {
                (Seq::<HookFire>::empty(), focused0)
            }
        },
        None => (Seq::<HookFire>::empty(), focused0),
    };
    (
        step.0 + fires_of_focused(bins, step.1, HookTrigger::MousePress, Some(button)),
        step.1,
    )
}

impl crate::interface::Interface {
    /// Routes a mouse press at `(x, y)`: computes the topmost hit bin,
    /// moves focus to it (firing lost-focus and focus hooks) when it
    /// differs from the current focus, then plans the focused bin's press
    /// hooks matching `button`. Returns the firings in order; the caller
    /// invokes the callbacks it keeps under those keys, after this call,
    /// so no dispatcher state is held across a callback.
    pub fn on_mouse_press(
        &mut self,
        x: i64,
        y: i64,
        win_w: i64,
        win_h: i64,
        button: MouseButton,
    ) -> (fires: Vec<HookFire>)
        requires
            old(self).wf(),
        ensures
            final(self).wf(),
            final(self).bins@ == old(self).bins@,
            final(self).next_id == old(self).next_id,
            final(self).events.mouse_in == old(self).events.mouse_in,
            ({
                let top = crate::interface::topmost_of(
                    old(self).bins@,
                    x as int,
                    y as int,
                    win_w as int,
                    win_h as int,
                );
                let plan = press_plan(old(self).bins@, old(self).events.focused, top, button);
                fires@ == plan.0 && final(self).events.focused == plan.1
            }),
    {
        let ghost bins0 = self.bins@;
        let ghost foc0 = self.events.focused;
        let top = self.topmost_index(x, y, win_w, win_h);
        let mut fires: Vec<HookFire> = Vec::new();
        match top {
            Some(ti) => {
                let tid = self.bins[ti].id;
                let same = match self.events.focused {
                    Some(f) => f == tid,
                    None => false,
                };
                if !same {
                    match self.events.focused {
                        Some(fid) => {
                            match self.find_index(fid) {
                                Some(fi) => {
                                    push_bin_fires(
                                        &mut fires,
                                        &self.bins[fi],
                                        HookTrigger::LostFocus,
                                        None,
                                    );
                                },
                                None => {},
                            }
                        },
                        None => {},
                    }
                    push_bin_fires(&mut fires, &self.bins[ti], HookTrigger::Focus, None);
                    self.events.focused = Some(tid);
                    proof {
                        crate::interface::lemma_index_of_exists_somewhere(bins0, tid, ti as int);
                    }
                }
            },
            None => {},
        }
        let ghost pre = fires@;
        let ghost foc1 = self.events.focused;
        match self.events.focused {
            Some(fid) => {
                match self.find_index(fid) {
                    Some(fi) => {
                        push_bin_fires(&mut fires, &self.bins[fi], HookTrigger::MousePress, Some(
                            button,
                        ));
                    },
                    None => {},
                }
            },
            None => {},
        }
        proof {
            let gtop = crate::interface::topmost_of(
                bins0,
                x as int,
                y as int,
                win_w as int,
                win_h as int,
            );
            let plan = press_plan(bins0, foc0, gtop, button);
            assert(foc1 == plan.1);
            assert(pre =~= Seq::<HookFire>::empty() + pre);
            assert(fires@ =~= pre + fires_of_focused(
                bins0,
                foc1,
                HookTrigger::MousePress,
                Some(button),
            ));
            assert(fires@ =~= plan.0);
        }
        fires
    }
}

/// The id of the first hook of `b` listening to scroll, from position `k`.
pub open spec fn first_scroll_hook_from(b: crate::interface::Bin, k: int) -> Option<u64>
    decreases b.hooks@.len() - k,
{
    if k < 0 || k >= b.hooks@.len() {
        None
    } else if b.hooks@[k].mouse_scroll {
        Some(b.hooks@[k].id)
    } else {
        first_scroll_hook_from(b, k + 1)
    }
}

/// The single scroll consumer: walking the bubble set innermost-first from
/// position `k`, the first bin carrying a scroll hook fires that hook, and
/// the event stops there.
pub open spec fn scroll_target_from(
    bins: Seq<crate::interface::Bin>,
    bubble: Seq<int>,
    k: int,
) -> Option<HookFire>
    decreases bubble.len() - k,
{
    if k < 0 || k >= bubble.len() {
        None
    } else {
        let b = bins[bubble[k]];
        match first_scroll_hook_from(b, 0) {
            Some(hid) => Some(
                HookFire { bin_id: b.id, hook_id: hid, trigger: HookTrigger::MouseScroll },
            ),
            None => scroll_target_from(bins, bubble, k + 1),
        }
    }
}

/// The id of the first hook of `b` listening to scroll.
pub(crate) fn first_scroll_hook(b: &crate::interface::Bin) -> (r: Option<u64>)
    ensures
        r == first_scroll_hook_from(*b, 0),
{
    let n = b.hooks.len();
    let mut k: usize = 0;
    while k < n
        invariant
            n == b.hooks@.len(),
            0 <= k <= n,
            first_scroll_hook_from(*b, 0) == first_scroll_hook_from(*b, k as int),
        decreases n - k,
    {
        if b.hooks[k].mouse_scroll {
            return Some(b.hooks[k].id);
        }
        k = k + 1;
    }
    None
}

/// The bubble set of a hit: the topmost bin's arena index followed by its
/// ancestor chain, innermost first; empty when nothing is hit.
pub open spec fn bubble_of(bins: Seq<crate::interface::Bin>, top: Option<int>) -> Seq<int> {
    match top {
        Some(t) => seq![t] + crate::interface::ancestor_indices(bins, t),
        None => Seq::empty(),
    }
}

/// The ids of the bins in a bubble set, innermost first.
pub open spec fn bubble_ids(bins: Seq<crate::interface::Bin>, bubble: Seq<int>) -> Seq<u64> {
    bubble.map_values(|bi: int| bins[bi].id)
}

/// Enter and move firings over the bubble set from position `k`, innermost
/// first: a bin not yet hovered fires its enter hooks, then every bubble
/// bin fires its move hooks.
pub open spec fn move_fires_from(
    bins: Seq<crate::interface::Bin>,
    bubble: Seq<int>,
    hovered: Seq<u64>,
    k: int,
) -> Seq<HookFire>
    decreases bubble.len() - k,
{
    if k < 0 || k >= bubble.len() {
        Seq::empty()
    } else {
        let b = bins[bubble[k]];
        (if hovered.contains(b.id) {
            Seq::<HookFire>::empty()
        } else {
            bin_fires(b, HookTrigger::MouseEnter, None)
        }) + bin_fires(b, HookTrigger::MouseMove, None) + move_fires_from(
            bins,
            bubble,
            hovered,
            k + 1,
        )
    }
}

/// Leave firings over the previously hovered set, walked from position `k`
/// downward — that is from the largest id down, so children leave before
/// their parents: every hovered bin no longer in the bubble set fires its
/// leave hooks.
pub open spec fn leave_fires_down(
    bins: Seq<crate::interface::Bin>,
    hovered: Seq<u64>,
    keep: Seq<u64>,
    k: int,
) -> Seq<HookFire>
    decreases k + 1,
{
    if k < 0 || k >= hovered.len() {
        Seq::empty()
    } else {
        (if keep.contains(hovered[k]) {
            Seq::<HookFire>::empty()
        } else {
            fires_of_id(bins, hovered[k], HookTrigger::MouseLeave, None)
        }) + leave_fires_down(bins, hovered, keep, k - 1)
    }
}

/// What a pointer move does: enter and move firings over the bubble set,
/// then leave firings for departed bins, children before parents; the new
/// hover set is exactly the bubble set, re-sorted by ascending id.
pub open spec fn move_plan(
    bins: Seq<crate::interface::Bin>,
    hovered0: Seq<u64>,
    top: Option<int>,
) -> (Seq<HookFire>, Seq<u64>) {
    let bubble = bubble_of(bins, top);
    let ids = bubble_ids(bins, bubble);
    (
        move_fires_from(bins, bubble, hovered0, 0) + leave_fires_down(
            bins,
            hovered0,
            ids,
            hovered0.len() - 1,
        ),
        ids.reverse(),
    )
}

impl crate::interface::Interface {
    /// Routes a pointer move to `(x, y)`: bins of the bubble set newly
    /// under the cursor fire their enter hooks and every bubble bin fires
    /// its move hooks, innermost first; previously hovered bins no longer
    /// under the cursor fire their leave hooks, children before parents.
    /// With no bin under the cursor the whole hover set is cleared the
    /// same way. Returns the firings in order.
    #[verifier::rlimit(60)]
    pub fn on_mouse_move(&mut self, x: i64, y: i64, win_w: i64, win_h: i64) -> (fires: Vec<
        HookFire,
    >)
        requires
            old(self).wf(),
        ensures
            final(self).wf(),
            final(self).bins@ == old(self).bins@,
            final(self).next_id == old(self).next_id,
            final(self).events.focused == old(self).events.focused,
            ({
                let top = crate::interface::topmost_of(
                    old(self).bins@,
                    x as int,
                    y as int,
                    win_w as int,
                    win_h as int,
                );
                let plan = move_plan(old(self).bins@, old(self).events.mouse_in@, top);
                fires@ == plan.0 && final(self).events.mouse_in@ == plan.1
            }),
    {
        let ghost bins0 = self.bins@;
        let ghost hov0 = self.events.mouse_in@;
        let top = self.topmost_index(x, y, win_w, win_h);
        // Build the bubble set: the hit bin, then its ancestors.
        let mut bubble: Vec<usize> = Vec::new();
        match top {
            Some(t) => {
                bubble.push(t);
                let mut anc = self.ancestors_at(t);
                bubble.append(&mut anc);
                proof {
                    crate::interface::lemma_ancestors_decreasing(bins0, t as int);
                }
            },
            None => {},
        }
        let ghost gtop: Option<int> = match top {
            Some(t) => Some(t as int),
            None => None,
        };
        let ghost gbubble = bubble_of(bins0, gtop);
        proof {
            assert(bubble@.map_values(|q: usize| q as int) =~= gbubble);
            assert forall|k: int| 0 <= k < gbubble.len() implies 0 <= #[trigger] gbubble[k]
                < bins0.len() by {
                assert(gbubble[k] == bubble@.map_values(|q: usize| q as int)[k]);
            }
        }
        let ghost gids = bubble_ids(bins0, gbubble);
        proof {
            assert forall|j: int| 0 <= j < bubble@.len() implies (#[trigger] bubble@[j])
                < bins0.len() by {
                assert(gbubble[j] == bubble@.map_values(|q: usize| q as int)[j]);
            }
        }
        // Enter and move firings over the bubble set.
        let mut fires: Vec<HookFire> = Vec::new();
        let bn = bubble.len();
        let mut k: usize = 0;
        while k < bn
            invariant
                self.wf(),
                self.bins@ == bins0,
                self.events.mouse_in@ == hov0,
                bn == bubble@.len(),
                0 <= k <= bn,
                bubble@.map_values(|q: usize| q as int) == gbubble,
                forall|j: int| 0 <= j < gbubble.len() ==> 0 <= #[trigger] gbubble[j] < bins0.len(),
                fires@ + move_fires_from(bins0, gbubble, hov0, k as int) == move_fires_from(
                    bins0,
                    gbubble,
                    hov0,
                    0,
                ),
            decreases bn - k,
        {
            let bi = bubble[k];
            proof {
                assert(gbubble[k as int] == bubble@.map_values(|q: usize| q as int)[k as int]);
            }
            let bid = self.bins[bi].id;
            let ghost pre = fires@;
            if !ids_contain(&self.events.mouse_in, bid) {
                push_bin_fires(&mut fires, &self.bins[bi], HookTrigger::MouseEnter, None);
            }
            push_bin_fires(&mut fires, &self.bins[bi], HookTrigger::MouseMove, None);
            proof {
                let b = bins0[gbubble[k as int]];
                let head = (if hov0.contains(b.id) {
                    Seq::<HookFire>::empty()
                } else {
                    bin_fires(b, HookTrigger::MouseEnter, None)
                }) + bin_fires(b, HookTrigger::MouseMove, None);
                assert(fires@ =~= pre + head);
                assert(fires@ + move_fires_from(bins0, gbubble, hov0, k as int + 1) =~= pre
                    + move_fires_from(bins0, gbubble, hov0, k as int));
            }
            k = k + 1;
        }
        proof {
            assert(fires@ =~= fires@ + move_fires_from(bins0, gbubble, hov0, bn as int));
        }
        let ghost moves_total = fires@;
        // Leave firings for departed bins, largest id first.
        let hm = self.events.mouse_in.len();
        let mut k2: usize = hm;
        while k2 > 0
            invariant
                self.wf(),
                self.bins@ == bins0,
                self.events.mouse_in@ == hov0,
                hm == hov0.len(),
                0 <= k2 <= hm,
                bubble@.map_values(|q: usize| q as int) == gbubble,
                forall|j: int| 0 <= j < gbubble.len() ==> 0 <= #[trigger] gbubble[j] < bins0.len(),
                forall|j: int| 0 <= j < bubble@.len() ==> (#[trigger] bubble@[j]) < bins0.len(),
                gids == bubble_ids(bins0, gbubble),
                fires@ + leave_fires_down(bins0, hov0, gids, k2 as int - 1) == moves_total
                    + leave_fires_down(bins0, hov0, gids, hm as int - 1),
            decreases k2,
        {
            let id = self.events.mouse_in[k2 - 1];
            let still = self.bubble_holds_id(&bubble, id);
            proof {
                assert(still == gids.contains(id));
            }
            let ghost pre = fires@;
            if !still {
                match self.find_index(id) {
                    Some(bi2) => {
                        push_bin_fires(&mut fires, &self.bins[bi2], HookTrigger::MouseLeave, None);
                    },
                    None => {},
                }
            }
            proof {
                let head = if gids.contains(hov0[k2 as int - 1]) {
                    Seq::<HookFire>::empty()
                } else {
                    fires_of_id(bins0, hov0[k2 as int - 1], HookTrigger::MouseLeave, None)
                };
                assert(fires@ =~= pre + head);
                assert(fires@ + leave_fires_down(bins0, hov0, gids, k2 as int - 2) =~= pre
                    + leave_fires_down(bins0, hov0, gids, k2 as int - 1));
            }
            k2 = k2 - 1;
        }
        // The new hover set is the bubble set, ascending by id.
        let mut new_in: Vec<u64> = Vec::new();
        let mut k3: usize = bn;
        while k3 > 0
            invariant
                self.wf(),
                self.bins@ == bins0,
                bn == bubble@.len(),
                0 <= k3 <= bn,
                bubble@.map_values(|q: usize| q as int) == gbubble,
                forall|j: int| 0 <= j < gbubble.len() ==> 0 <= #[trigger] gbubble[j] < bins0.len(),
                gids == bubble_ids(bins0, gbubble),
                new_in@.len() == bn - k3,
                forall|j: int|
                    0 <= j < new_in@.len() ==> #[trigger] new_in@[j] == gids[bn - 1 - j],
            decreases k3,
        {
            let bi = bubble[k3 - 1];
            proof {
                assert(gbubble[k3 as int - 1] == bubble@.map_values(|q: usize| q as int)[k3 as int
                    - 1]);
            }
            new_in.push(self.bins[bi].id);
            k3 = k3 - 1;
        }
        proof {
            assert(new_in@ =~= gids.reverse());
        }
        self.events.mouse_in = new_in;
        proof {
            // The bubble ids strictly decrease innermost-out, so their
            // reverse is strictly increasing, and each names a registered
            // bin.
            match gtop {
                Some(t) => {
                    crate::interface::lemma_ancestors_decreasing(bins0, t);
                    let c = crate::interface::ancestor_indices(bins0, t);
                    assert(gbubble =~= seq![t] + c);
                    assert forall|a: int, b: int|
                        0 <= a < b < self.events.mouse_in@.len() implies #[trigger] self.events.mouse_in@[a] < #[trigger] self.events.mouse_in@[b] by {
                        let la = gbubble.len() - 1 - a;
                        let lb = gbubble.len() - 1 - b;
                        assert(self.events.mouse_in@[a] == gids[la]);
                        assert(self.events.mouse_in@[b] == gids[lb]);
                        assert(gids[la] == bins0[gbubble[la]].id);
                        assert(gids[lb] == bins0[gbubble[lb]].id);
                        if lb == 0 {
                            assert(gbubble[la] == c[la - 1]);
                        } else {
                            assert(gbubble[la] == c[la - 1]);
                            assert(gbubble[lb] == c[lb - 1]);
                        }
                    }
                    assert forall|a: int|
                        0 <= a < self.events.mouse_in@.len() implies crate::interface::id_exists(
                        self.bins@,
                        #[trigger] self.events.mouse_in@[a],
                    ) by {
                        let la = gbubble.len() - 1 - a;
                        assert(self.events.mouse_in@[a] == gids[la]);
                        assert(gids[la] == bins0[gbubble[la]].id);
                        crate::interface::lemma_index_of_exists_somewhere(
                            bins0,
                            bins0[gbubble[la]].id,
                            gbubble[la],
                        );
                    }
                },
                None => {
                    assert(self.events.mouse_in@ =~= Seq::<u64>::empty());
                },
            }
        }
        fires
    }

    /// Routes a scroll at `(x, y)`: the innermost bubble-set bin carrying
    /// a scroll hook consumes the event — its first such hook fires, and
    /// nothing propagates further.
    pub fn on_mouse_scroll(&self, x: i64, y: i64, win_w: i64, win_h: i64) -> (r: Option<HookFire>)
        requires
            self.wf(),
        ensures
            ({
                let top = crate::interface::topmost_of(
                    self.bins@,
                    x as int,
                    y as int,
                    win_w as int,
                    win_h as int,
                );
                r == scroll_target_from(self.bins@, bubble_of(self.bins@, top), 0)
            }),
    {
        let ghost bins0 = self.bins@;
        let top = self.topmost_index(x, y, win_w, win_h);
        let mut bubble: Vec<usize> = Vec::new();
        match top {
            Some(t) => {
                bubble.push(t);
                let mut anc = self.ancestors_at(t);
                bubble.append(&mut anc);
            },
            None => {},
        }
        let ghost gtop: Option<int> = match top {
            Some(t) => Some(t as int),
            None => None,
        };
        let ghost gbubble = bubble_of(bins0, gtop);
        proof {
            assert(bubble@.map_values(|q: usize| q as int) =~= gbubble);
            assert forall|j: int| 0 <= j < bubble@.len() implies (#[trigger] bubble@[j])
                < bins0.len() by {
                assert(gbubble[j] == bubble@.map_values(|q: usize| q as int)[j]);
            }
        }
        let bn = bubble.len();
        let mut k: usize = 0;
        while k < bn
            invariant
                self.wf(),
                self.bins@ == bins0,
                bn == bubble@.len(),
                0 <= k <= bn,
                bubble@.map_values(|q: usize| q as int) == gbubble,
                forall|j: int| 0 <= j < bubble@.len() ==> (#[trigger] bubble@[j]) < bins0.len(),
                gtop == crate::interface::topmost_of(
                    bins0,
                    x as int,
                    y as int,
                    win_w as int,
                    win_h as int,
                ),
                gbubble == bubble_of(bins0, gtop),
                scroll_target_from(bins0, gbubble, 0) == scroll_target_from(
                    bins0,
                    gbubble,
                    k as int,
                ),
            decreases bn - k,
        {
            proof {
                assert(gbubble[k as int] == bubble@.map_values(|q: usize| q as int)[k as int]);
            }
            let b = &self.bins[bubble[k]];
            match first_scroll_hook(b) {
                Some(hid) => {
                    proof {
                        assert(first_scroll_hook_from(bins0[gbubble[k as int]], 0) == Some(hid));
                        assert(scroll_target_from(bins0, gbubble, k as int) == Some(
                            HookFire {
                                bin_id: bins0[gbubble[k as int]].id,
                                hook_id: hid,
                                trigger: HookTrigger::MouseScroll,
                            },
                        ));
                    }
                    return Some(
                        HookFire { bin_id: b.id, hook_id: hid, trigger: HookTrigger::MouseScroll },
                    );
                },
                None => {},
            }
            k = k + 1;
        }
        None
    }

    /// Registers a hook on the bin carrying `bin_id` and returns the hook
    /// id assigned to it. Fails only for an unregistered bin (or a bin
    /// whose hook-id counter is exhausted), changing nothing. The `id`
    /// field of the passed hook is ignored and replaced by the assigned id.
    pub fn add_hook(&mut self, bin_id: u64, hook: Hook) -> (r: Option<u64>)
        requires
            old(self).wf(),
        ensures
            final(self).wf(),
            final(self).next_id == old(self).next_id,
            final(self).events == old(self).events,
            match index_of_id(old(self).bins@, bin_id) {
                Some(i) => match r {
                    Some(hid) => {
                        &&& hid == old(self).bins@[i].next_hook_id
                        &&& final(self).bins@.len() == old(self).bins@.len()
                        &&& forall|k: int|
                            0 <= k < old(self).bins@.len() && k != i ==> final(self).bins@[k]
                                == old(self).bins@[k]
                        &&& final(self).bins@[i].id == old(self).bins@[i].id
                        &&& final(self).bins@[i].parent == old(self).bins@[i].parent
                        &&& final(self).bins@[i].style == old(self).bins@[i].style
                        &&& final(self).bins@[i].next_hook_id == old(self).bins@[i].next_hook_id
                            + 1
                        &&& final(self).bins@[i].hooks@.len() == old(self).bins@[i].hooks@.len()
                            + 1
                        &&& forall|k: int|
                            0 <= k < old(self).bins@[i].hooks@.len()
                                ==> final(self).bins@[i].hooks@[k] == old(self).bins@[i].hooks@[k]
                        &&& ({
                            let h = final(self).bins@[i].hooks@.last();
                            h.id == hid && h.mouse_press == hook.mouse_press && h.mouse_scroll
                                == hook.mouse_scroll && h.mouse_move == hook.mouse_move
                                && h.mouse_enter == hook.mouse_enter && h.mouse_leave
                                == hook.mouse_leave && h.on_focus == hook.on_focus && h.lost_focus
                                == hook.lost_focus
                        })
                    },
                    None => final(self).bins@ == old(self).bins@ && old(self).bins@[i].next_hook_id
                        == u64::MAX,
                },
                None => r is None && final(self).bins@ == old(self).bins@,
            },
    {
        let ghost bins0 = self.bins@;
        let i = match self.find_index(bin_id) {
            Some(i) => i,
            None => {
                return None;
            },
        };
        if self.bins[i].next_hook_id == u64::MAX {
            return None;
        }
        let b = self.bins.remove(i);
        let hid = b.next_hook_id;
        let mut hooks = b.hooks;
        hooks.push(
            Hook {
                id: hid,
                mouse_press: hook.mouse_press,
                mouse_scroll: hook.mouse_scroll,
                mouse_move: hook.mouse_move,
                mouse_enter: hook.mouse_enter,
                mouse_leave: hook.mouse_leave,
                on_focus: hook.on_focus,
                lost_focus: hook.lost_focus,
            },
        );
        let b2 = crate::interface::Bin {
            id: b.id,
            parent: b.parent,
            style: b.style,
            hooks,
            next_hook_id: hid + 1,
        };
        self.bins.insert(i, b2);
        proof {
            assert(self.bins@.len() == bins0.len());
            assert forall|k: int| 0 <= k < bins0.len() && k != i implies self.bins@[k]
                == bins0[k] by {}
            assert(crate::interface::bin_hooks_wf(self.bins@[i as int]));
            crate::interface::lemma_same_ids_wf(*old(self), *self);
        }
        Some(hid)
    }

    /// Unregisters the hook carrying `hook_id` from the bin carrying
    /// `bin_id`. Returns whether such a hook existed; later hooks keep
    /// their order.
    #[verifier::rlimit(80)]
    pub fn remove_hook(&mut self, bin_id: u64, hook_id: u64) -> (ok: bool)
        requires
            old(self).wf(),
        ensures
            final(self).wf(),
            final(self).next_id == old(self).next_id,
            final(self).events == old(self).events,
            match index_of_id(old(self).bins@, bin_id) {
                Some(i) => if ok {
                    ({
                        let ob = old(self).bins@[i];
                        let nb = final(self).bins@[i];
                        exists|j: int|
                            0 <= j < ob.hooks@.len() && (#[trigger] ob.hooks@[j]).id == hook_id
                                && nb.hooks@ == ob.hooks@.remove(j)
                    }) && final(self).bins@.len() == old(self).bins@.len() && (forall|k: int|
                        0 <= k < old(self).bins@.len() && k != i ==> final(self).bins@[k] == old(self).bins@[k]) && final(self).bins@[i].id == old(self).bins@[i].id && final(self).bins@[i].parent == old(self).bins@[i].parent && final(self).bins@[i].style
                        == old(self).bins@[i].style && final(self).bins@[i].next_hook_id == old(self).bins@[i].next_hook_id
                } else {
                    final(self).bins@ == old(self).bins@ && forall|j: int|
                        0 <= j < old(self).bins@[i].hooks@.len() ==> (#[trigger] old(self).bins@[i].hooks@[j]).id != hook_id
                },
                None => !ok && final(self).bins@ == old(self).bins@,
            },
    {
        let ghost bins0 = self.bins@;
        let i = match self.find_index(bin_id) {
            Some(i) => i,
            None => {
                return false;
            },
        };
        let hn = self.bins[i].hooks.len();
        let mut j: usize = 0;
        while j < hn
            invariant
                old(self).wf(),
                self.wf(),
                *self == *old(self),
                bins0 == old(self).bins@,
                i < bins0.len(),
                index_of_id(bins0, bin_id) == Some(i as int),
                hn == bins0[i as int].hooks@.len(),
                0 <= j <= hn,
                forall|k: int| 0 <= k < j ==> bins0[i as int].hooks@[k].id != hook_id,
            decreases hn - j,
        {
            if self.bins[i].hooks[j].id == hook_id {
                let b = self.bins.remove(i);
                let mut hooks = b.hooks;
                hooks.remove(j);
                let b2 = crate::interface::Bin {
                    id: b.id,
                    parent: b.parent,
                    style: b.style,
                    hooks,
                    next_hook_id: b.next_hook_id,
                };
                self.bins.insert(i, b2);
                proof {
                    assert(self.bins@.len() == bins0.len());
                    assert forall|k: int| 0 <= k < bins0.len() && k != i implies self.bins@[k]
                        == bins0[k] by {}
                    let oldh = bins0[i as int].hooks@;
                    let newh = self.bins@[i as int].hooks@;
                    assert(newh =~= oldh.remove(j as int));
                    assert forall|a: int, c: int| 0 <= a < c < newh.len() implies (
                    #[trigger] newh[a]).id != (#[trigger] newh[c]).id by {
                        let a0 = if a < j { a } else { a + 1 };
                        let c0 = if c < j { c } else { c + 1 };
                        assert(newh[a] == oldh[a0]);
                        assert(newh[c] == oldh[c0]);
                    }
                    assert forall|a: int| 0 <= a < newh.len() implies (#[trigger] newh[a]).id
                        < self.bins@[i as int].next_hook_id by {
                        let a0 = if a < j { a } else { a + 1 };
                        assert(newh[a] == oldh[a0]);
                    }
                    assert(crate::interface::bin_hooks_wf(self.bins@[i as int]));
                    crate::interface::lemma_same_ids_wf(*old(self), *self);
                    assert(old(self).bins@[i as int].hooks@[j as int].id == hook_id);
                    assert(self.bins@[i as int].hooks@ == old(self).bins@[i as int].hooks@.remove(
                        j as int,
                    ));
                }
                return true;
            }
            j = j + 1;
        }
        false
    }

    /// Whether any bubble-set bin carries `id`.
    fn bubble_holds_id(&self, bubble: &Vec<usize>, id: u64) -> (r: bool)
        requires
            forall|j: int| 0 <= j < bubble@.len() ==> (#[trigger] bubble@[j]) < self.bins@.len(),
        ensures
            r == bubble_ids(
                self.bins@,
                bubble@.map_values(|q: usize| q as int),
            ).contains(id),
    {
        let ghost gb = bubble@.map_values(|q: usize| q as int);
        let ghost ids = bubble_ids(self.bins@, gb);
        let n = bubble.len();
        let mut i: usize = 0;
        while i < n
            invariant
                n == bubble@.len(),
                0 <= i <= n,
                gb == bubble@.map_values(|q: usize| q as int),
                ids == bubble_ids(self.bins@, gb),
                forall|j: int| 0 <= j < bubble@.len() ==> (#[trigger] bubble@[j])
                    < self.bins@.len(),
                forall|j: int| 0 <= j < i ==> ids[j] != id,
            decreases n - i,
        {
            proof {
                assert(gb[i as int] == bubble@.map_values(|q: usize| q as int)[i as int]);
                assert(ids[i as int] == self.bins@[gb[i as int]].id);
            }
            if self.bins[bubble[i]].id == id {
                proof {
                    assert(ids.contains(id)) by {
                        assert(ids[i as int] == id);
                    }
                }
                return true;
            }
            i = i + 1;
        }
        proof {
            if ids.contains(id) {
                let w = choose|w: int| 0 <= w < ids.len() && ids[w] == id;
            }
        }
        false
    }
}

} // verus!
