use vstd::prelude::*;

use crate::config::{ConfigFile, ConfigView, TemplateView};
use crate::scan::{
    assoc_lookup, config_systems, find_by_ext, find_system_for_extension, find_template_index,
    index_view, sys_lookup,
};
use crate::text::{lower_of, lowercase, path_ext, path_extension, str_eq};

verus! {

// ---------------------------------------------------------------------------
// List navigation
// ---------------------------------------------------------------------------
/// Height of one list tile in pixels, with the padding between tiles.
pub const TILE_H: u64 = 140;

pub const TILE_PADDING: u64 = 10;

/// How many list rows fit under the banner of a window `h` pixels tall; at
/// least one row is always shown.
pub fn visible_rows(h: u64) -> (r: u64)
    ensures
        h >= 60 && (h - 60) / 150 >= 1 ==> r == (h - 60) / (TILE_H + TILE_PADDING),
        h < 60 || (h - 60) / 150 < 1 ==> r == 1,
{
    if h < 60 {
        1
    } else {
        let v = (h - 60) / (TILE_H + TILE_PADDING);
        if v < 1 {
            1
        } else {
            v
        }
    }
}

/// Move the selection one row up, pulling the scroll window along when the
/// selection leaves it; at the top nothing moves.
pub fn nav_up(selected: usize, scroll: usize) -> (r: (usize, usize))
    ensures
        selected > 0 ==> r.0 == selected - 1 && r.1 == (if selected - 1 < scroll {
            selected - 1
        } else {
            scroll as int
        }),
        selected == 0 ==> r == (selected, scroll),
{
    if selected > 0 {
        let s2 = selected - 1;
        if s2 < scroll {
            (s2, s2)
        } else {
            (s2, scroll)
        }
    } else {
        (selected, scroll)
    }
}

/// Move the selection one row down within a list of `len` items, scrolling
/// when it passes the last of the `visible` rows; at the bottom nothing
/// moves.
pub fn nav_down(selected: usize, scroll: usize, len: usize, visible: usize) -> (r: (usize, usize))
    requires
        visible >= 1,
    ensures
        selected + 1 < len ==> r.0 == selected + 1 && r.1 == (if selected + 1 >= scroll + visible {
            selected + 2 - visible
        } else {
            scroll as int
        }),
        selected + 1 >= len ==> r == (selected, scroll),
{
    if len > 0 && selected < len - 1 {
        let s2 = selected + 1;
        if s2 >= scroll && s2 - scroll >= visible {
            (s2, s2 - visible + 1)
        } else {
            (s2, scroll)
        }
    } else {
        (selected, scroll)
    }
}

/// Step to the previous system, wrapping to the last.
pub fn prev_system_index(idx: usize, count: usize) -> (r: usize)
    ensures
        r == (if idx > 0 {
            idx - 1
        } else if count > 0 {
            count - 1
        } else {
            0
        }),
{
    if idx > 0 {
        idx - 1
    } else if count > 0 {
        count - 1
    } else {
        0
    }
}

/// Step to the next system, wrapping to the first.  The list must not be
/// empty.
pub fn next_system_index(idx: usize, count: usize) -> (r: usize)
    requires
        count > 0,
    ensures
        r == ((idx + 1) as int) % (count as int),
{
    let next = (idx as u128 + 1) % (count as u128);
    proof {
        assert(next < count as u128);
    }
    next as usize
}

/// Clamp a stale scroll offset to the current list, as the renderer does
/// before laying out the visible window.
pub fn clamp_scroll(scroll: usize, len: usize) -> (r: usize)
    ensures
        r == (if scroll >= len && len > 0 {
            len - 1
        } else {
            scroll as int
        }),
{
    if scroll >= len && len > 0 {
        len - 1
    } else {
        scroll
    }
}

// ---------------------------------------------------------------------------
// The library root
// ---------------------------------------------------------------------------
/// The library root directory: a command-line argument overrides the
/// configured root, which overrides the conventional `./roms`.
pub fn roms_dir_choice(cli: Option<String>, configured: Option<String>) -> (r: String)
    ensures
        cli matches Some(c) ==> r@ == c@,
        cli is None ==> (configured matches Some(p) ==> r@ == p@),
        cli is None && configured is None ==> r@ == "./roms"@,
{
    match cli {
        Some(c) => c,
        None => match configured {
            Some(p) => p,
            None => String::from_str("./roms"),
        },
    }
}

// ---------------------------------------------------------------------------
// Banner text
// ---------------------------------------------------------------------------
/// A name cut down to `max_chars` characters by replacing its middle with
/// an ellipsis, keeping the start and the end.
pub open spec fn elide_middle_view(s: Seq<char>, max_chars: int) -> Seq<char> {
    if s.len() <= max_chars {
        s
    } else if max_chars <= 3 {
        "..."@
    } else {
        let keep = (max_chars - 3) / 2;
        let head = keep + (max_chars - 3) % 2;
        s.take(head) + "..."@ + s.skip(s.len() - keep)
    }
}

/// Cut a long name down to `max_chars` characters, keeping its start and
/// end around an ellipsis.
pub fn elide_middle(s: &str, max_chars: usize) -> (r: String)
    ensures
        r@ == elide_middle_view(s@, max_chars as int),
{
    let len = s.unicode_len();
    if len <= max_chars {
        return s.to_owned();
    }
    if max_chars <= 3 {
        return String::from_str("...");
    }
    let keep = (max_chars - 3) / 2;
    let head = keep + (max_chars - 3) % 2;
    assert(head <= max_chars - 3);
    assert(keep <= max_chars - 3);
    let start = s.substring_char(0, head);
    let end = s.substring_char(len - keep, len);
    let mut r = start.to_owned();
    r.append("...");
    r.append(end);
    proof {
        assert(s@.subrange(0, head as int) =~= s@.take(head as int));
        assert(s@.subrange(len - keep, len as int) =~= s@.skip(s@.len() - keep));
    }
    r
}

// ---------------------------------------------------------------------------
// The display order of systems
// ---------------------------------------------------------------------------
/// The list of system identifiers eligible for display, in the order of
/// the system table: each identifier case-folded, kept when its group in
/// the index is non-empty or when empty systems are shown.
pub open spec fn system_order_view(
    systems: Seq<(Seq<char>, TemplateView)>,
    idx: Seq<(Seq<char>, Seq<Seq<char>>)>,
    show_empty: bool,
) -> Seq<Seq<char>>
    decreases systems.len(),
{
    if systems.len() == 0 {
        Seq::empty()
    } else {
        let k_l = lower_of(systems[0].0);
        let keep = show_empty || (assoc_lookup(idx, k_l) matches Some(g) && g.len() > 0);
        let rest = system_order_view(systems.drop_first(), idx, show_empty);
        if keep {
            seq![k_l] + rest
        } else {
            rest
        }
    }
}

pub open spec fn show_empty_of(cfg: ConfigView) -> bool {
    cfg.show_empty_systems == Some(true)
}

proof fn lemma_system_order_push(
    systems: Seq<(Seq<char>, TemplateView)>,
    x: (Seq<char>, TemplateView),
    idx: Seq<(Seq<char>, Seq<Seq<char>>)>,
    show_empty: bool,
)
    ensures
        system_order_view(systems.push(x), idx, show_empty) == (if show_empty || (assoc_lookup(
            idx,
            lower_of(x.0),
        ) matches Some(g) && g.len() > 0) {
            system_order_view(systems, idx, show_empty) + seq![lower_of(x.0)]
        } else {
            system_order_view(systems, idx, show_empty)
        }),
    decreases systems.len(),
{
    let s2 = systems.push(x);
    let keep_x = show_empty || (assoc_lookup(idx, lower_of(x.0)) matches Some(g) && g.len() > 0);
    assert(s2.len() == systems.len() + 1);
    if systems.len() == 0 {
        assert(s2[0] == x);
        assert(s2.drop_first() =~= Seq::<(Seq<char>, TemplateView)>::empty());
        let rest2 = system_order_view(s2.drop_first(), idx, show_empty);
        assert(rest2 =~= Seq::<Seq<char>>::empty());
        assert(system_order_view(s2, idx, show_empty) == (if keep_x {
            seq![lower_of(s2[0].0)] + rest2
        } else {
            rest2
        }));
        assert(system_order_view(systems, idx, show_empty) =~= Seq::<Seq<char>>::empty());
        if keep_x {
            assert(seq![lower_of(x.0)] + Seq::<Seq<char>>::empty() =~= seq![lower_of(x.0)]);
            assert(Seq::<Seq<char>>::empty() + seq![lower_of(x.0)] =~= seq![lower_of(x.0)]);
        }
    } else {
        assert(s2[0] == systems[0]);
        assert(s2.drop_first() =~= systems.drop_first().push(x));
        lemma_system_order_push(systems.drop_first(), x, idx, show_empty);
        let k_l = lower_of(systems[0].0);
        let keep0 = show_empty || (assoc_lookup(idx, k_l) matches Some(g) && g.len() > 0);
        let rest = system_order_view(systems.drop_first(), idx, show_empty);
        let rest2 = system_order_view(s2.drop_first(), idx, show_empty);
        assert(system_order_view(systems, idx, show_empty) == (if keep0 {
            seq![k_l] + rest
        } else {
            rest
        }));
        assert(system_order_view(s2, idx, show_empty) == (if keep0 {
            seq![lower_of(s2[0].0)] + rest2
        } else {
            rest2
        }));
        if keep_x {
            assert(rest2 == rest + seq![lower_of(x.0)]);
            if keep0 {
                assert(seq![k_l] + (rest + seq![lower_of(x.0)]) =~= (seq![k_l] + rest) + seq![
                    lower_of(x.0),
                ]);
            }
        } else {
            assert(rest2 == rest);
        }
    }
}

/// Compute the display order of systems from the configuration and the
/// scanned index: the system table's order, case-folded, with systems that
/// have no files left out unless the show-empty flag is set.
pub fn compute_system_order(cfg: &ConfigFile, index: &Vec<(String, Vec<String>)>) -> (r: Vec<
    String,
>)
    ensures
        r.deep_view() == system_order_view(
            config_systems(cfg@),
            index_view(index@),
            show_empty_of(cfg@),
        ),
{
    let show_empty: bool = match cfg.show_empty_systems {
        Some(b) => b,
        None => false,
    };
    let mut r: Vec<String> = Vec::new();
    match &cfg.systems {
        None => {
            proof {
                assert(config_systems(cfg@) =~= Seq::<(Seq<char>, TemplateView)>::empty());
                assert(r.deep_view() =~= Seq::<Seq<char>>::empty());
            }
            r
        },
        Some(systems) => {
            let ghost sv = crate::config::systems_view(*systems);
            proof {
                assert(config_systems(cfg@) == sv);
                assert(sv.take(0) =~= Seq::<(Seq<char>, TemplateView)>::empty());
                assert(r.deep_view() =~= Seq::<Seq<char>>::empty());
            }
            let mut si: usize = 0;
            while si < systems.len()
                invariant
                    si <= systems.len(),
                    sv == crate::config::systems_view(*systems),
                    sv.len() == systems.len(),
                    show_empty == show_empty_of(cfg@),
                    r.deep_view() == system_order_view(
                        sv.take(si as int),
                        index_view(index@),
                        show_empty,
                    ),
                decreases systems.len() - si,
            {
                let k_l = lowercase(systems[si].0.as_str());
                proof {
                    assert(k_l@ == lower_of(sv[si as int].0));
                }
                let keep: bool = if show_empty {
                    true
                } else {
                    match crate::scan::index_find(index, k_l.as_str()) {
                        Some(gi) => index[gi].1.len() > 0,
                        None => false,
                    }
                };
                let ghost pre = r.deep_view();
                if keep {
                    r.push(k_l);
                    proof {
                        assert(r.deep_view() =~= pre.push(lower_of(sv[si as int].0)));
                        assert(pre.push(lower_of(sv[si as int].0)) =~= pre + seq![
                            lower_of(sv[si as int].0),
                        ]);
                    }
                }
                proof {
                    lemma_system_order_push(
                        sv.take(si as int),
                        sv[si as int],
                        index_view(index@),
                        show_empty,
                    );
                    assert(sv.take(si + 1) =~= sv.take(si as int).push(sv[si as int]));
                }
                si = si + 1;
            }
            proof {
                assert(sv.take(systems.len() as int) =~= sv);
            }
            r
        },
    }
}

// ---------------------------------------------------------------------------
// Selection across a reload
// ---------------------------------------------------------------------------
/// Whether the display order still holds a system identifier.
pub open spec fn order_contains(order: Seq<Seq<char>>, p: Seq<char>) -> bool {
    exists|j: int| 0 <= j < order.len() && #[trigger] order[j] == p
}

/// After a reload, keep the previously selected system when it is still in
/// the order, else fall back to the first.
pub fn restore_selection(order: &Vec<String>, prev: &Option<String>) -> (r: usize)
    ensures
        prev is None ==> r == 0,
        (prev matches Some(p) ==> (if order_contains(order.deep_view(), p@) {
            &&& r < order.len()
            &&& order.deep_view()[r as int] == p@
            &&& forall|j: int| 0 <= j < r ==> order.deep_view()[j] != p@
        } else {
            r == 0
        })),
{
    match prev {
        None => 0,
        Some(p) => {
            let mut i: usize = 0;
            while i < order.len()
                invariant
                    i <= order.len(),
                    *prev == Some(*p),
                    order.deep_view().len() == order.len(),
                    forall|j: int| 0 <= j < i ==> #[trigger] order.deep_view()[j] != p@,
                decreases order.len() - i,
            {
                if str_eq(order[i].as_str(), p.as_str()) {
                    proof {
                        assert(order.deep_view()[i as int] == p@);
                        assert(order_contains(order.deep_view(), p@));
                    }
                    return i;
                }
                i = i + 1;
            }
            proof {
                assert(!order_contains(order.deep_view(), p@));
            }
            0
        },
    }
}

// ---------------------------------------------------------------------------
// Resolving a launch
// ---------------------------------------------------------------------------
/// What confirming an item resolves to: the position in the system table of
/// the entry whose template starts it, a status message when no template is
/// configured, or nothing at all when the configuration has no system
/// table.
#[derive(Debug)]
pub enum LaunchDecision {
    Launch(usize),
    Fail(String),
    Ignore,
}

/// The message shown when no launch template covers the chosen item.
pub open spec fn no_template_message(sys: Seq<char>) -> Seq<char> {
    "No emulator configured for system "@ + sys
}

fn no_template_fail(sys: &str) -> (r: LaunchDecision)
    ensures
        r matches LaunchDecision::Fail(m) && m@ == no_template_message(sys@),
{
    let mut m = String::from_str("No emulator configured for system ");
    m.append(sys);
    LaunchDecision::Fail(m)
}

/// The extension fallback resolution that a launch uses when the current
/// system has no template: the item's extension, case-folded, resolved
/// through the display order.
pub open spec fn fallback_system(cfg: ConfigView, order: Seq<Seq<char>>, rom: Seq<char>) -> Option<
    Seq<char>,
> {
    match path_ext(rom) {
        None => None,
        Some(e) => find_by_ext(cfg, order, lower_of(lower_of(e))),
    }
}

/// Decide how to launch the item `rom_path` selected under the system
/// `sys`: the system's own template wins; without one, the first system in
/// the display order that claims the item's extension is used; when neither
/// yields a template the launch fails with a status message; with no system
/// table at all nothing happens.
pub fn resolve_launch(cfg: &ConfigFile, order: &Vec<String>, sys: &str, rom_path: &str) -> (r:
    LaunchDecision)
    ensures
        cfg@.systems is None ==> r is Ignore,
        cfg@.systems is Some && sys_lookup(config_systems(cfg@), sys@) is Some ==> (r
            matches LaunchDecision::Launch(i) && i < config_systems(cfg@).len() && config_systems(
            cfg@,
        )[i as int].0 == sys@ && Some(config_systems(cfg@)[i as int].1) == sys_lookup(
            config_systems(cfg@),
            sys@,
        )),
        cfg@.systems is Some && sys_lookup(config_systems(cfg@), sys@) is None ==> (match
            fallback_system(cfg@, order.deep_view(), rom_path@) {
            None => r matches LaunchDecision::Fail(m) && m@ == no_template_message(sys@),
            Some(found) => match sys_lookup(config_systems(cfg@), found) {
                Some(t) => r matches LaunchDecision::Launch(i) && i < config_systems(
                    cfg@,
                ).len() && config_systems(cfg@)[i as int].0 == found && config_systems(
                    cfg@,
                )[i as int].1 == t,
                None => r matches LaunchDecision::Fail(m) && m@ == no_template_message(found),
            },
        }),
{
    match &cfg.systems {
        None => LaunchDecision::Ignore,
        Some(systems) => {
            proof {
                assert(config_systems(cfg@) == crate::config::systems_view(*systems));
            }
            match find_template_index(systems, sys) {
                Some(i) => LaunchDecision::Launch(i),
                None => {
                    match path_extension(rom_path) {
                        None => no_template_fail(sys),
                        Some(e) => {
                            let el = lowercase(e.as_str());
                            match find_system_for_extension(el.as_str(), cfg, order) {
                                None => no_template_fail(sys),
                                Some(found) => {
                                    match find_template_index(systems, found.as_str()) {
                                        Some(i) => LaunchDecision::Launch(i),
                                        None => no_template_fail(found.as_str()),
                                    }
                                },
                            }
                        },
                    }
                },
            }
        },
    }
}

} // verus!
