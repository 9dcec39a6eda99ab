use vstd::prelude::*;

verus! {

// ---------------------------------------------------------------------------
// The chord detector
// ---------------------------------------------------------------------------
/// The chord must span no more than this many milliseconds from its
/// earliest press to its latest.
pub const COMBO_WINDOW_MS: u64 = 400;

/// After a chord fires, no further chord fires until this many milliseconds
/// after the fired chord's earliest press.
pub const COMBO_COOLDOWN_MS: u64 = 1000;

/// Tracks the last press time of each button of interest and fires when all
/// designated buttons are down together within the window.  A fired chord
/// clears the tracked presses and starts the cooldown.
pub struct ComboTracker {
    required: Vec<u64>,
    pressed: Vec<(u64, u64)>,
    cooldown_until: u64,
}

/// Mathematical model of a `ComboTracker`: the designated buttons, the
/// tracked presses as an ordered list of button/timestamp pairs, and the
/// time at which the cooldown ends.
pub ghost struct ComboView {
    pub required: Seq<u64>,
    pub pressed: Seq<(u64, u64)>,
    pub cooldown_until: u64,
}

impl View for ComboTracker {
    type V = ComboView;

    closed spec fn view(&self) -> ComboView {
        ComboView {
            required: self.required@,
            pressed: self.pressed@,
            cooldown_until: self.cooldown_until,
        }
    }
}

/// The tracked timestamp of a button: its first entry in the list.
pub open spec fn stamp_of(pressed: Seq<(u64, u64)>, b: u64) -> Option<u64>
    decreases pressed.len(),
{
    if pressed.len() == 0 {
        None
    } else if pressed[0].0 == b {
        Some(pressed[0].1)
    } else {
        stamp_of(pressed.drop_first(), b)
    }
}

/// The press list after recording a press of `b` at `now`: its entry is
/// updated in place, or appended when the button was not tracked.
pub open spec fn press_update(pressed: Seq<(u64, u64)>, b: u64, now: u64) -> Seq<(u64, u64)>
    decreases pressed.len(),
{
    if pressed.len() == 0 {
        seq![(b, now)]
    } else if pressed[0].0 == b {
        seq![(b, now)] + pressed.drop_first()
    } else {
        seq![pressed[0]] + press_update(pressed.drop_first(), b, now)
    }
}

/// The press list after a release of `b`: its entry is dropped.
pub open spec fn remove_button(pressed: Seq<(u64, u64)>, b: u64) -> Seq<(u64, u64)>
    decreases pressed.len(),
{
    if pressed.len() == 0 {
        pressed
    } else if pressed[0].0 == b {
        pressed.drop_first()
    } else {
        seq![pressed[0]] + remove_button(pressed.drop_first(), b)
    }
}

/// Whether every designated button is tracked.
pub open spec fn all_tracked(pressed: Seq<(u64, u64)>, required: Seq<u64>) -> bool {
    forall|k: int| 0 <= k < required.len() ==> stamp_of(pressed, #[trigger] required[k]) is Some
}

/// Whether the designated buttons' timestamps span at most `window`
/// milliseconds: every pair lies within it.
pub open spec fn within_window(pressed: Seq<(u64, u64)>, required: Seq<u64>, window: u64) -> bool {
    forall|k1: int, k2: int|
        0 <= k1 < required.len() && 0 <= k2 < required.len() ==> (match (
            stamp_of(pressed, #[trigger] required[k1]),
            stamp_of(pressed, #[trigger] required[k2]),
        ) {
            (Some(t1), Some(t2)) => t1 <= t2 + window,
            _ => true,
        })
}

/// The chord fires exactly when the cooldown has ended and all designated
/// buttons are tracked with timestamps spanning at most the window.
pub open spec fn fire_cond(v: ComboView, up: Seq<(u64, u64)>, now: u64) -> bool {
    &&& now >= v.cooldown_until
    &&& all_tracked(up, v.required)
    &&& within_window(up, v.required, COMBO_WINDOW_MS)
}

/// The earliest tracked timestamp among the designated buttons (an
/// untracked button counts as zero; the detector only uses this when all
/// are tracked).
pub open spec fn chord_min(pressed: Seq<(u64, u64)>, required: Seq<u64>) -> int
    decreases required.len(),
{
    if required.len() == 0 {
        0
    } else {
        let t = match stamp_of(pressed, required[0]) {
            Some(t) => t as int,
            None => 0,
        };
        if required.len() == 1 {
            t
        } else {
            let rest = chord_min(pressed, required.drop_first());
            if t <= rest {
                t
            } else {
                rest
            }
        }
    }
}

/// The cooldown deadline a fired chord sets: the chord's earliest press
/// plus the cooldown, saturating.
pub open spec fn next_cooldown(pressed: Seq<(u64, u64)>, required: Seq<u64>) -> u64 {
    let m = chord_min(pressed, required) + COMBO_COOLDOWN_MS;
    if m > u64::MAX {
        u64::MAX
    } else {
        m as u64
    }
}

proof fn lemma_chord_min_props(pressed: Seq<(u64, u64)>, required: Seq<u64>)
    requires
        required.len() > 0,
        all_tracked(pressed, required),
    ensures
        exists|k: int|
            0 <= k < required.len() && (stamp_of(pressed, #[trigger] required[k]) matches Some(t)
                && t as int == chord_min(pressed, required)),
        forall|k: int|
            0 <= k < required.len() ==> (stamp_of(pressed, #[trigger] required[k]) matches Some(t)
                ==> chord_min(pressed, required) <= t as int),
    decreases required.len(),
{
    if required.len() == 1 {
        assert(stamp_of(pressed, required[0]) is Some);
    } else {
        assert forall|k: int| 0 <= k < required.drop_first().len() implies stamp_of(
            pressed,
            #[trigger] required.drop_first()[k],
        ) is Some by {
            assert(stamp_of(pressed, required[k + 1]) is Some);
        }
        lemma_chord_min_props(pressed, required.drop_first());
        let m = chord_min(pressed, required);
        let rest = chord_min(pressed, required.drop_first());
        let t0 = stamp_of(pressed, required[0]).unwrap() as int;
        if t0 <= rest {
            assert(m == t0);
            assert(stamp_of(pressed, required[0]) matches Some(t) && t as int == m);
        } else {
            let k = choose|k: int|
                0 <= k < required.drop_first().len() && (stamp_of(
                    pressed,
                    #[trigger] required.drop_first()[k],
                ) matches Some(t) && t as int == rest);
            assert(required[k + 1] == required.drop_first()[k]);
        }
        assert forall|k: int|
            0 <= k < required.len() && stamp_of(pressed, #[trigger] required[k]) is Some implies m
            <= stamp_of(pressed, required[k]).unwrap() as int by {
            if k > 0 {
                assert(required.drop_first()[k - 1] == required[k]);
                assert(stamp_of(pressed, required.drop_first()[k - 1]) is Some);
            }
        }
    }
}

proof fn lemma_press_update_at(pressed: Seq<(u64, u64)>, b: u64, now: u64, i: int)
    requires
        0 <= i < pressed.len(),
        pressed[i].0 == b,
        forall|j: int| 0 <= j < i ==> (#[trigger] pressed[j]).0 != b,
    ensures
        press_update(pressed, b, now) == pressed.update(i, (b, now)),
    decreases i,
{
    if i == 0 {
        assert(press_update(pressed, b, now) =~= pressed.update(0, (b, now)));
    } else {
        assert forall|j: int| 0 <= j < i - 1 implies (#[trigger] pressed.drop_first()[j]).0
            != b by {
            assert(pressed[j + 1].0 != b);
        }
        lemma_press_update_at(pressed.drop_first(), b, now, i - 1);
        assert(pressed.drop_first().update(i - 1, (b, now)) =~= pressed.update(
            i,
            (b, now),
        ).drop_first());
        assert(press_update(pressed, b, now) =~= pressed.update(i, (b, now)));
    }
}

proof fn lemma_press_update_missing(pressed: Seq<(u64, u64)>, b: u64, now: u64)
    requires
        forall|j: int| 0 <= j < pressed.len() ==> (#[trigger] pressed[j]).0 != b,
    ensures
        press_update(pressed, b, now) == pressed.push((b, now)),
    decreases pressed.len(),
{
    if pressed.len() == 0 {
        assert(press_update(pressed, b, now) =~= pressed.push((b, now)));
    } else {
        assert forall|j: int| 0 <= j < pressed.drop_first().len() implies (
        #[trigger] pressed.drop_first()[j]).0 != b by {
            assert(pressed[j + 1].0 != b);
        }
        lemma_press_update_missing(pressed.drop_first(), b, now);
        assert(press_update(pressed, b, now) =~= pressed.push((b, now)));
    }
}

proof fn lemma_remove_button_at(pressed: Seq<(u64, u64)>, b: u64, i: int)
    requires
        0 <= i < pressed.len(),
        pressed[i].0 == b,
        forall|j: int| 0 <= j < i ==> (#[trigger] pressed[j]).0 != b,
    ensures
        remove_button(pressed, b) == pressed.remove(i),
    decreases i,
{
    if i == 0 {
        assert(remove_button(pressed, b) =~= pressed.remove(0));
    } else {
        assert forall|j: int| 0 <= j < i - 1 implies (#[trigger] pressed.drop_first()[j]).0
            != b by {
            assert(pressed[j + 1].0 != b);
        }
        lemma_remove_button_at(pressed.drop_first(), b, i - 1);
        assert(pressed.drop_first().remove(i - 1) =~= pressed.remove(i).drop_first());
        assert(remove_button(pressed, b) =~= pressed.remove(i));
    }
}

proof fn lemma_remove_button_missing(pressed: Seq<(u64, u64)>, b: u64)
    requires
        forall|j: int| 0 <= j < pressed.len() ==> (#[trigger] pressed[j]).0 != b,
    ensures
        remove_button(pressed, b) == pressed,
    decreases pressed.len(),
{
    if pressed.len() > 0 {
        assert forall|j: int| 0 <= j < pressed.drop_first().len() implies (
        #[trigger] pressed.drop_first()[j]).0 != b by {
            assert(pressed[j + 1].0 != b);
        }
        lemma_remove_button_missing(pressed.drop_first(), b);
        assert(remove_button(pressed, b) =~= pressed);
    }
}

impl ComboTracker {
    /// A fresh tracker for the given designated buttons: nothing tracked,
    /// no cooldown pending.
    pub fn new(required: Vec<u64>) -> (r: ComboTracker)
        ensures
            r@.required == required@,
            r@.pressed == Seq::<(u64, u64)>::empty(),
            r@.cooldown_until == 0,
    {
        let r = ComboTracker { required, pressed: Vec::new(), cooldown_until: 0 };
        proof {
            assert(r@.pressed =~= Seq::<(u64, u64)>::empty());
        }
        r
    }

    /// How many buttons are tracked right now.
    pub fn tracked_count(&self) -> (r: usize)
        ensures
            r == self@.pressed.len(),
    {
        self.pressed.len()
    }

    /// Find the position of a button in the tracked list.
    fn find_pressed(&self, button: u64) -> (r: Option<usize>)
        ensures
            match r {
                Some(i) => {
                    &&& i < self@.pressed.len()
                    &&& self@.pressed[i as int].0 == button
                    &&& forall|j: int| 0 <= j < i ==> (#[trigger] self@.pressed[j]).0 != button
                },
                None => forall|j: int|
                    0 <= j < self@.pressed.len() ==> (#[trigger] self@.pressed[j]).0 != button,
            },
    {
        let mut i: usize = 0;
        while i < self.pressed.len()
            invariant
                i <= self@.pressed.len(),
                forall|j: int| 0 <= j < i ==> (#[trigger] self@.pressed[j]).0 != button,
            decreases self@.pressed.len() - i,
        {
            if self.pressed[i].0 == button {
                return Some(i);
            }
            i = i + 1;
        }
        None
    }

    /// Look a button's tracked timestamp up.
    fn stamp_lookup(&self, button: u64) -> (r: Option<u64>)
        ensures
            r == stamp_of(self@.pressed, button),
    {
        match self.find_pressed(button) {
            Some(i) => {
                proof {
                    lemma_stamp_of_at(self@.pressed, button, i as int);
                }
                Some(self.pressed[i].1)
            },
            None => {
                proof {
                    lemma_stamp_of_missing(self@.pressed, button);
                }
                None
            },
        }
    }

    /// Record a press of `button` at time `now` and report whether the
    /// chord fired: it fires exactly when the cooldown has ended and every
    /// designated button is then tracked with timestamps spanning at most
    /// the window.  Firing clears the tracked presses and sets the cooldown
    /// to run until one cooldown interval after the chord's earliest press;
    /// otherwise the updated presses are kept and the cooldown stands.
    pub fn on_press(&mut self, button: u64, now: u64) -> (fired: bool)
        ensures
            final(self)@.required == old(self)@.required,
            fired == fire_cond(
                old(self)@,
                press_update(old(self)@.pressed, button, now),
                now,
            ),
            fired ==> final(self)@.pressed == Seq::<(u64, u64)>::empty()
                && final(self)@.cooldown_until == next_cooldown(
                press_update(old(self)@.pressed, button, now),
                old(self)@.required,
            ),
            !fired ==> final(self)@.pressed == press_update(old(self)@.pressed, button, now)
                && final(self)@.cooldown_until == old(self)@.cooldown_until,
    {
        let ghost v0 = self@;
        let ghost up = press_update(v0.pressed, button, now);
        match self.find_pressed(button) {
            Some(i) => {
                proof {
                    lemma_press_update_at(v0.pressed, button, now, i as int);
                }
                self.pressed[i] = (button, now);
            },
            None => {
                proof {
                    lemma_press_update_missing(v0.pressed, button, now);
                }
                self.pressed.push((button, now));
            },
        }
        assert(self@.pressed == up);
        if now < self.cooldown_until {
            assert(!fire_cond(v0, up, now));
            return false;
        }
        let rlen = self.required.len();
        if rlen == 0 {
            proof {
                assert(all_tracked(up, v0.required));
                assert(within_window(up, v0.required, COMBO_WINDOW_MS));
                assert(chord_min(up, v0.required) == 0);
            }
            self.pressed = Vec::new();
            self.cooldown_until = COMBO_COOLDOWN_MS;
            proof {
                assert(self@.pressed =~= Seq::<(u64, u64)>::empty());
            }
            return true;
        }
        let mut min_t: u64;
        let mut max_t: u64;
        let ghost mut kmin: int;
        let ghost mut kmax: int;
        match self.stamp_lookup(self.required[0]) {
            Some(t) => {
                min_t = t;
                max_t = t;
                proof {
                    kmin = 0;
                    kmax = 0;
                }
            },
            None => {
                assert(stamp_of(up, v0.required[0]) is None);
                assert(!all_tracked(up, v0.required));
                return false;
            },
        }
        let mut k: usize = 1;
        while k < rlen
            invariant
                1 <= k <= rlen,
                v0 == old(self)@,
                up == press_update(v0.pressed, button, now),
                rlen == self@.required.len(),
                self@.required == v0.required,
                self@.pressed == up,
                self@.cooldown_until == v0.cooldown_until,
                0 <= kmin < k,
                0 <= kmax < k,
                stamp_of(up, v0.required[kmin]) == Some(min_t),
                stamp_of(up, v0.required[kmax]) == Some(max_t),
                forall|j: int|
                    0 <= j < k ==> (stamp_of(up, #[trigger] v0.required[j]) matches Some(t) && min_t
                        <= t <= max_t),
            decreases rlen - k,
        {
            match self.stamp_lookup(self.required[k]) {
                Some(t) => {
                    if t < min_t {
                        min_t = t;
                        proof {
                            kmin = k as int;
                        }
                    }
                    if t > max_t {
                        max_t = t;
                        proof {
                            kmax = k as int;
                        }
                    }
                },
                None => {
                    assert(stamp_of(up, v0.required[k as int]) is None);
                    assert(!all_tracked(up, v0.required));
                    return false;
                },
            }
            k = k + 1;
        }
        assert(all_tracked(up, v0.required));
        if max_t - min_t <= COMBO_WINDOW_MS {
            proof {
                assert forall|k1: int, k2: int|
                    0 <= k1 < v0.required.len() && 0 <= k2 < v0.required.len() implies (match (
                    stamp_of(up, #[trigger] v0.required[k1]),
                    stamp_of(up, #[trigger] v0.required[k2]),
                ) {
                    (Some(t1), Some(t2)) => t1 <= t2 + COMBO_WINDOW_MS,
                    _ => true,
                }) by {
                    assert(stamp_of(up, v0.required[k1]) matches Some(t) && min_t <= t <= max_t);
                    assert(stamp_of(up, v0.required[k2]) matches Some(t) && min_t <= t <= max_t);
                }
                assert(fire_cond(v0, up, now));
                lemma_chord_min_props(up, v0.required);
                let cm = chord_min(up, v0.required);
                assert(cm <= min_t as int);
                let kw = choose|kk: int|
                    0 <= kk < v0.required.len() && (stamp_of(up, #[trigger] v0.required[kk])
                        matches Some(t) && t as int == cm);
                assert(stamp_of(up, v0.required[kw]) matches Some(t) && min_t <= t <= max_t);
                assert(cm == min_t as int);
            }
            self.pressed = Vec::new();
            if min_t > u64::MAX - COMBO_COOLDOWN_MS {
                self.cooldown_until = u64::MAX;
            } else {
                self.cooldown_until = min_t + COMBO_COOLDOWN_MS;
            }
            proof {
                assert(self@.pressed =~= Seq::<(u64, u64)>::empty());
            }
            true
        } else {
            proof {
                assert(stamp_of(up, v0.required[kmax]) matches Some(t1) && stamp_of(
                    up,
                    v0.required[kmin],
                ) matches Some(t2) && !(t1 <= t2 + COMBO_WINDOW_MS));
                assert(!within_window(up, v0.required, COMBO_WINDOW_MS));
            }
            false
        }
    }

    /// Forget a button on release, whatever the chord state.
    pub fn on_release(&mut self, button: u64)
        ensures
            final(self)@.required == old(self)@.required,
            final(self)@.cooldown_until == old(self)@.cooldown_until,
            final(self)@.pressed == remove_button(old(self)@.pressed, button),
    {
        let ghost v0 = self@;
        match self.find_pressed(button) {
            Some(i) => {
                proof {
                    lemma_remove_button_at(v0.pressed, button, i as int);
                }
                self.pressed.remove(i);
            },
            None => {
                proof {
                    lemma_remove_button_missing(v0.pressed, button);
                }
            },
        }
    }
}

proof fn lemma_stamp_of_at(pressed: Seq<(u64, u64)>, b: u64, i: int)
    requires
        0 <= i < pressed.len(),
        pressed[i].0 == b,
        forall|j: int| 0 <= j < i ==> (#[trigger] pressed[j]).0 != b,
    ensures
        stamp_of(pressed, b) == Some(pressed[i].1),
    decreases i,
{
    if i > 0 {
        assert forall|j: int| 0 <= j < i - 1 implies (#[trigger] pressed.drop_first()[j]).0
            != b by {
            assert(pressed[j + 1].0 != b);
        }
        lemma_stamp_of_at(pressed.drop_first(), b, i - 1);
    }
}

proof fn lemma_stamp_of_missing(pressed: Seq<(u64, u64)>, b: u64)
    requires
        forall|j: int| 0 <= j < pressed.len() ==> (#[trigger] pressed[j]).0 != b,
    ensures
        stamp_of(pressed, b) is None,
    decreases pressed.len(),
{
    if pressed.len() > 0 {
        assert forall|j: int| 0 <= j < pressed.drop_first().len() implies (
        #[trigger] pressed.drop_first()[j]).0 != b by {
            assert(pressed[j + 1].0 != b);
        }
        lemma_stamp_of_missing(pressed.drop_first(), b);
    }
}

} // verus!
