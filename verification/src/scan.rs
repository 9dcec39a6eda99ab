use vstd::prelude::*;

use crate::config::{CmdTemplate, ConfigFile, ConfigView, TemplateView, systems_view};
use crate::text::{
    first_seg, lemma_lex_leq_total_ordering, lex_leq_fn, lower_of, lowercase, path_ext,
    path_extension, path_first_segment, sort_strings, str_eq,
};

verus! {

// ---------------------------------------------------------------------------
// The system table
// ---------------------------------------------------------------------------
/// Value of the first entry of an ordered key/value list whose key equals
/// `key`.
pub open spec fn assoc_lookup<V>(entries: Seq<(Seq<char>, V)>, key: Seq<char>) -> Option<V>
    decreases entries.len(),
{
    if entries.len() == 0 {
        None
    } else if entries[0].0 == key {
        Some(entries[0].1)
    } else {
        assoc_lookup(entries.drop_first(), key)
    }
}

/// First entry of the ordered system table whose key equals `key`.
pub open spec fn sys_lookup(systems: Seq<(Seq<char>, TemplateView)>, key: Seq<char>) -> Option<
    TemplateView,
> {
    assoc_lookup(systems, key)
}

/// The system table of a configuration; an absent table is empty.
pub open spec fn config_systems(cfg: ConfigView) -> Seq<(Seq<char>, TemplateView)> {
    match cfg.systems {
        None => Seq::empty(),
        Some(ss) => ss,
    }
}

/// The launch template the configuration assigns to a system identifier.
pub open spec fn template_for(cfg: ConfigView, sys: Seq<char>) -> Option<TemplateView> {
    sys_lookup(config_systems(cfg), sys)
}

pub proof fn lemma_assoc_lookup_at<V>(entries: Seq<(Seq<char>, V)>, key: Seq<char>, i: int)
    requires
        0 <= i < entries.len(),
        entries[i].0 == key,
        forall|j: int| 0 <= j < i ==> entries[j].0 != key,
    ensures
        assoc_lookup(entries, key) == Some(entries[i].1),
    decreases i,
{
    if i > 0 {
        assert forall|j: int| 0 <= j < i - 1 implies entries.drop_first()[j].0 != key by {
            assert(entries[j + 1].0 != key);
        }
        lemma_assoc_lookup_at(entries.drop_first(), key, i - 1);
    }
}

pub proof fn lemma_assoc_lookup_none<V>(entries: Seq<(Seq<char>, V)>, key: Seq<char>)
    requires
        forall|j: int| 0 <= j < entries.len() ==> entries[j].0 != key,
    ensures
        assoc_lookup(entries, key) is None,
    decreases entries.len(),
{
    if entries.len() > 0 {
        assert forall|j: int| 0 <= j < entries.len() - 1 implies entries.drop_first()[j].0
            != key by {
            assert(entries[j + 1].0 != key);
        }
        lemma_assoc_lookup_none(entries.drop_first(), key);
    }
}

/// Index of the first entry of the system table whose key equals `key`.
pub fn find_template_index(systems: &Vec<(String, CmdTemplate)>, key: &str) -> (r: Option<usize>)
    ensures
        match r {
            Some(i) => {
                &&& i < systems.len()
                &&& systems_view(*systems)[i as int].0 == key@
                &&& forall|j: int| 0 <= j < i ==> (#[trigger] systems_view(*systems)[j]).0 != key@
                &&& sys_lookup(systems_view(*systems), key@) == Some(
                    systems_view(*systems)[i as int].1,
                )
            },
            None => sys_lookup(systems_view(*systems), key@) is None,
        },
{
    let ghost sv = systems_view(*systems);
    let mut i: usize = 0;
    while i < systems.len()
        invariant
            i <= systems.len(),
            sv == systems_view(*systems),
            sv.len() == systems.len(),
            forall|j: int| 0 <= j < i ==> sv[j].0 != key@,
        decreases systems.len() - i,
    {
        if str_eq(systems[i].0.as_str(), key) {
            proof {
                lemma_assoc_lookup_at(sv, key@, i as int);
            }
            return Some(i);
        }
        i = i + 1;
    }
    proof {
        lemma_assoc_lookup_none(sv, key@);
    }
    None
}

// ---------------------------------------------------------------------------
// Which files are listed
// ---------------------------------------------------------------------------
/// Archive extensions (already case-folded) that are never listed.
pub open spec fn ignored_ext(e: Seq<char>) -> bool {
    e == "zip"@ || e == "7z"@ || e == "rar"@ || e == "gz"@ || e == "xz"@
}

fn is_ignored_ext(e: &str) -> (r: bool)
    ensures
        r == ignored_ext(e@),
{
    str_eq(e, "zip") || str_eq(e, "7z") || str_eq(e, "rar") || str_eq(e, "gz") || str_eq(e, "xz")
}

/// The system identifier a relative path belongs to: its first path segment,
/// case-folded.
pub open spec fn file_system(p: Seq<char>) -> Seq<char> {
    lower_of(first_seg(p))
}

/// Whether an extension list contains `e`, comparing case-insensitively.
pub open spec fn ext_matches(vis: Seq<Seq<char>>, e: Seq<char>) -> bool {
    exists|k: int| 0 <= k < vis.len() && lower_of(vis[k]) == lower_of(e)
}

fn ext_matches_exec(vis: &Vec<String>, e: &str) -> (r: bool)
    ensures
        r == ext_matches(vis.deep_view(), e@),
{
    let el = lowercase(e);
    let mut k: usize = 0;
    while k < vis.len()
        invariant
            k <= vis.len(),
            el@ == lower_of(e@),
            forall|j: int| 0 <= j < k ==> lower_of(#[trigger] vis.deep_view()[j]) != lower_of(e@),
        decreases vis.len() - k,
    {
        let vl = lowercase(vis[k].as_str());
        if str_eq(vl.as_str(), el.as_str()) {
            proof {
                assert(lower_of(vis.deep_view()[k as int]) == lower_of(e@));
            }
            return true;
        }
        k = k + 1;
    }
    false
}

/// Whether the scanner lists the relative path `p` at all: its extension is
/// not one of the ignored archive formats, the configuration has a template
/// for the system its first path segment names, and, when that template
/// restricts visible extensions, the file's extension matches one of them
/// case-insensitively.
pub open spec fn file_listed(cfg: ConfigView, p: Seq<char>) -> bool {
    &&& !match path_ext(p) {
        Some(e) => ignored_ext(lower_of(e)),
        None => false,
    }
    &&& match template_for(cfg, file_system(p)) {
        None => false,
        Some(t) => match t.visible_extensions {
            None => true,
            Some(vis) => match path_ext(p) {
                Some(e) => ext_matches(vis, e),
                None => false,
            },
        },
    }
}

/// Whether `p` is listed and belongs to the system `sys`.
pub open spec fn file_in_group(cfg: ConfigView, sys: Seq<char>, p: Seq<char>) -> bool {
    file_listed(cfg, p) && file_system(p) == sys
}

fn file_in_group_exec(cfg: &ConfigFile, sys_key: &str, p: &str) -> (r: bool)
    ensures
        r == file_in_group(cfg@, sys_key@, p@),
{
    let ext = path_extension(p);
    match &ext {
        Some(e) => {
            let el = lowercase(e.as_str());
            if is_ignored_ext(el.as_str()) {
                return false;
            }
        },
        None => {},
    }
    let seg = path_first_segment(p);
    let sys_l = lowercase(seg.as_str());
    if !str_eq(sys_l.as_str(), sys_key) {
        assert(file_system(p@) != sys_key@);
        return false;
    }
    assert(file_system(p@) == sys_key@);
    match &cfg.systems {
        None => {
            assert(template_for(cfg@, file_system(p@)) is None);
            false
        },
        Some(systems) => {
            proof {
                assert(config_systems(cfg@) == systems_view(*systems));
            }
            match find_template_index(systems, sys_key) {
                None => false,
                Some(ti) => {
                    let tmpl = &systems[ti].1;
                    proof {
                        assert(systems_view(*systems)[ti as int].1 == tmpl@);
                    }
                    match &tmpl.visible_extensions {
                        None => true,
                        Some(vis) => {
                            match &ext {
                                None => false,
                                Some(e) => ext_matches_exec(vis, e.as_str()),
                            }
                        },
                    }
                },
            }
        },
    }
}

// ---------------------------------------------------------------------------
// The library index
// ---------------------------------------------------------------------------
/// The predicate that places a file in the group of system `sys`.
pub open spec fn group_pred(cfg: ConfigView, sys: Seq<char>) -> spec_fn(Seq<char>) -> bool {
    |p: Seq<char>| file_in_group(cfg, sys, p)
}

/// The group of one system: its listed files, in `lex_leq` order.
pub open spec fn group_for(cfg: ConfigView, files: Seq<Seq<char>>, sys: Seq<char>) -> Seq<
    Seq<char>,
> {
    files.filter(group_pred(cfg, sys)).sort_by(lex_leq_fn())
}

/// The index built over a system table: one entry per table entry whose
/// group is non-empty, in table order.
pub open spec fn scan_index(
    cfg: ConfigView,
    systems: Seq<(Seq<char>, TemplateView)>,
    files: Seq<Seq<char>>,
) -> Seq<(Seq<char>, Seq<Seq<char>>)>
    decreases systems.len(),
{
    if systems.len() == 0 {
        Seq::empty()
    } else {
        let g = group_for(cfg, files, systems[0].0);
        let rest = scan_index(cfg, systems.drop_first(), files);
        if g.len() == 0 {
            rest
        } else {
            seq![(systems[0].0, g)] + rest
        }
    }
}

/// The library index of a configuration and a listing of relative paths.
pub open spec fn scan_view(cfg: ConfigView, files: Seq<Seq<char>>) -> Seq<
    (Seq<char>, Seq<Seq<char>>),
> {
    scan_index(cfg, config_systems(cfg), files)
}

/// Model of an index value as the exec code holds it.
pub open spec fn index_view(r: Seq<(String, Vec<String>)>) -> Seq<(Seq<char>, Seq<Seq<char>>)> {
    r.map_values(|pr: (String, Vec<String>)| (pr.0@, pr.1.deep_view()))
}

proof fn lemma_filter_push<A>(s: Seq<A>, pred: spec_fn(A) -> bool, x: A)
    ensures
        pred(x) ==> s.push(x).filter(pred) == s.filter(pred).push(x),
        !pred(x) ==> s.push(x).filter(pred) == s.filter(pred),
{
    reveal(Seq::filter);
    assert(s.push(x).drop_last() =~= s);
    assert(s.push(x).last() == x);
}

proof fn lemma_scan_index_push(
    cfg: ConfigView,
    systems: Seq<(Seq<char>, TemplateView)>,
    x: (Seq<char>, TemplateView),
    files: Seq<Seq<char>>,
)
    ensures
        group_for(cfg, files, x.0).len() == 0 ==> scan_index(cfg, systems.push(x), files)
            == scan_index(cfg, systems, files),
        group_for(cfg, files, x.0).len() > 0 ==> scan_index(cfg, systems.push(x), files)
            == scan_index(cfg, systems, files) + seq![(x.0, group_for(cfg, files, x.0))],
    decreases systems.len(),
{
    let s2 = systems.push(x);
    let g = group_for(cfg, files, x.0);
    assert(s2.len() == systems.len() + 1);
    if systems.len() == 0 {
        assert(s2[0] == x);
        assert(s2.drop_first() =~= Seq::<(Seq<char>, TemplateView)>::empty());
        let rest2 = scan_index(cfg, s2.drop_first(), files);
        assert(rest2 =~= Seq::<(Seq<char>, Seq<Seq<char>>)>::empty());
        assert(scan_index(cfg, s2, files) == if g.len() == 0 {
            rest2
        } else {
            seq![(s2[0].0, group_for(cfg, files, s2[0].0))] + rest2
        });
        assert(scan_index(cfg, systems, files) =~= Seq::<(Seq<char>, Seq<Seq<char>>)>::empty());
        if g.len() > 0 {
            assert(scan_index(cfg, s2, files) =~= seq![(x.0, g)]);
            assert(scan_index(cfg, systems, files) + seq![(x.0, g)] =~= seq![(x.0, g)]);
        }
    } else {
        assert(s2[0] == systems[0]);
        assert(s2.drop_first() =~= systems.drop_first().push(x));
        lemma_scan_index_push(cfg, systems.drop_first(), x, files);
        let g0 = group_for(cfg, files, systems[0].0);
        let rest = scan_index(cfg, systems.drop_first(), files);
        let rest2 = scan_index(cfg, s2.drop_first(), files);
        assert(scan_index(cfg, systems, files) == if g0.len() == 0 {
            rest
        } else {
            seq![(systems[0].0, g0)] + rest
        });
        assert(scan_index(cfg, s2, files) == if g0.len() == 0 {
            rest2
        } else {
            seq![(s2[0].0, group_for(cfg, files, s2[0].0))] + rest2
        });
        if g.len() == 0 {
            assert(rest2 == rest);
        } else {
            assert(rest2 == rest + seq![(x.0, g)]);
            if g0.len() > 0 {
                assert(seq![(systems[0].0, g0)] + (rest + seq![(x.0, g)]) =~= (seq![
                    (systems[0].0, g0),
                ] + rest) + seq![(x.0, g)]);
            }
        }
    }
}

/// Build the library index: group the listed relative paths by the system
/// their first path segment names, each group sorted, groups in the order of
/// the configured system table, systems with no files left out.
pub fn scan_grouped(files: &Vec<String>, cfg: &ConfigFile) -> (r: Vec<(String, Vec<String>)>)
    ensures
        index_view(r@) == scan_view(cfg@, files.deep_view()),
{
    let mut r: Vec<(String, Vec<String>)> = Vec::new();
    match &cfg.systems {
        None => {
            proof {
                assert(config_systems(cfg@) =~= Seq::<(Seq<char>, TemplateView)>::empty());
                assert(index_view(r@) =~= Seq::<(Seq<char>, Seq<Seq<char>>)>::empty());
            }
            r
        },
        Some(systems) => {
            let ghost sv = systems_view(*systems);
            proof {
                assert(config_systems(cfg@) == sv);
                assert(sv.take(0) =~= Seq::<(Seq<char>, TemplateView)>::empty());
                assert(index_view(r@) =~= Seq::<(Seq<char>, Seq<Seq<char>>)>::empty());
            }
            let mut si: usize = 0;
            while si < systems.len()
                invariant
                    si <= systems.len(),
                    sv == systems_view(*systems),
                    sv.len() == systems.len(),
                    index_view(r@) == scan_index(cfg@, sv.take(si as int), files.deep_view()),
                decreases systems.len() - si,
            {
                let key: String = systems[si].0.clone();
                proof {
                    assert(key@ == sv[si as int].0);
                }
                let ghost pred = group_pred(cfg@, key@);
                let mut g: Vec<String> = Vec::new();
                proof {
                    reveal(Seq::filter);
                    assert(files.deep_view().take(0).filter(pred) =~= Seq::<Seq<char>>::empty());
                    assert(g.deep_view() =~= Seq::<Seq<char>>::empty());
                }
                let mut fi: usize = 0;
                while fi < files.len()
                    invariant
                        fi <= files.len(),
                        pred == group_pred(cfg@, key@),
                        files.deep_view().len() == files.len(),
                        g.deep_view() == files.deep_view().take(fi as int).filter(pred),
                    decreases files.len() - fi,
                {
                    let ghost pre = g.deep_view();
                    let inc = file_in_group_exec(cfg, key.as_str(), files[fi].as_str());
                    if inc {
                        g.push(files[fi].clone());
                    }
                    proof {
                        let dv = files.deep_view();
                        assert(dv.take(fi + 1) =~= dv.take(fi as int).push(dv[fi as int]));
                        lemma_filter_push(dv.take(fi as int), pred, dv[fi as int]);
                        if inc {
                            assert(g.deep_view() =~= pre.push(dv[fi as int]));
                        }
                    }
                    fi = fi + 1;
                }
                proof {
                    assert(files.deep_view().take(files.len() as int) =~= files.deep_view());
                }
                let sorted = sort_strings(&g);
                proof {
                    broadcast use vstd::seq_lib::group_to_multiset_ensures;

                    lemma_lex_leq_total_ordering();
                    files.deep_view().filter(pred).lemma_sort_by_ensures(lex_leq_fn());
                    let gf = group_for(cfg@, files.deep_view(), key@);
                    if sorted.len() > 0 {
                        vstd::seq_lib::lemma_sorted_unique(sorted.deep_view(), gf, lex_leq_fn());
                        assert(sorted.deep_view() == gf);
                    } else {
                        assert(sorted.deep_view().to_multiset().len() == 0);
                        assert(gf.to_multiset().len() == 0);
                        assert(gf.len() == 0);
                    }
                }
                let ghost old_ri = index_view(r@);
                let ghost sorted_dv = sorted.deep_view();
                if sorted.len() > 0 {
                    r.push((key, sorted));
                    proof {
                        assert(index_view(r@) =~= old_ri.push(
                            (sv[si as int].0, sorted_dv),
                        ));
                    }
                }
                proof {
                    lemma_scan_index_push(cfg@, sv.take(si as int), sv[si as int], files.deep_view());
                    assert(sv.take(si + 1) =~= sv.take(si as int).push(sv[si as int]));
                    let gf = group_for(cfg@, files.deep_view(), sv[si as int].0);
                    if gf.len() > 0 {
                        assert(index_view(r@) =~= old_ri + seq![(sv[si as int].0, gf)]);
                    }
                }
                si = si + 1;
            }
            proof {
                assert(sv.take(systems.len() as int) =~= sv);
            }
            r
        },
    }
}

/// Index of the first index entry whose system identifier equals `key`.
pub fn index_find(idx: &Vec<(String, Vec<String>)>, key: &str) -> (r: Option<usize>)
    ensures
        match r {
            Some(i) => {
                &&& i < idx.len()
                &&& index_view(idx@)[i as int].0 == key@
                &&& forall|j: int| 0 <= j < i ==> (#[trigger] index_view(idx@)[j]).0 != key@
                &&& assoc_lookup(index_view(idx@), key@) == Some(index_view(idx@)[i as int].1)
            },
            None => assoc_lookup(index_view(idx@), key@) is None,
        },
{
    let ghost iv = index_view(idx@);
    let mut i: usize = 0;
    while i < idx.len()
        invariant
            i <= idx.len(),
            iv == index_view(idx@),
            iv.len() == idx.len(),
            forall|j: int| 0 <= j < i ==> iv[j].0 != key@,
        decreases idx.len() - i,
    {
        if str_eq(idx[i].0.as_str(), key) {
            proof {
                lemma_assoc_lookup_at(iv, key@, i as int);
            }
            return Some(i);
        }
        i = i + 1;
    }
    proof {
        lemma_assoc_lookup_none(iv, key@);
    }
    None
}

// ---------------------------------------------------------------------------
// Resolution by extension
// ---------------------------------------------------------------------------
/// Whether a list of extensions holds one whose case-folded form is the
/// (already folded) `ext_l`.
pub open spec fn ext_in_list(exts: Seq<Seq<char>>, ext_l: Seq<char>) -> bool {
    exists|k: int| 0 <= k < exts.len() && lower_of(#[trigger] exts[k]) == ext_l
}

/// Whether the template configured for `sys` claims the (already folded)
/// extension `ext_l` in its `extensions` list, case-insensitively.
pub open spec fn sys_claims_ext(cfg: ConfigView, sys: Seq<char>, ext_l: Seq<char>) -> bool {
    match template_for(cfg, sys) {
        None => false,
        Some(t) => match t.extensions {
            None => false,
            Some(exts) => ext_in_list(exts, ext_l),
        },
    }
}

/// The first system of `order` whose template claims the extension.
pub open spec fn find_by_ext(cfg: ConfigView, order: Seq<Seq<char>>, ext_l: Seq<char>) -> Option<
    Seq<char>,
>
    decreases order.len(),
{
    if order.len() == 0 {
        None
    } else if sys_claims_ext(cfg, order[0], ext_l) {
        Some(order[0])
    } else {
        find_by_ext(cfg, order.drop_first(), ext_l)
    }
}

proof fn lemma_find_by_ext_at(cfg: ConfigView, order: Seq<Seq<char>>, ext_l: Seq<char>, i: int)
    requires
        0 <= i < order.len(),
        sys_claims_ext(cfg, order[i], ext_l),
        forall|k: int| 0 <= k < i ==> !sys_claims_ext(cfg, order[k], ext_l),
    ensures
        find_by_ext(cfg, order, ext_l) == Some(order[i]),
    decreases i,
{
    if i > 0 {
        assert forall|k: int| 0 <= k < i - 1 implies !sys_claims_ext(
            cfg,
            order.drop_first()[k],
            ext_l,
        ) by {
            assert(!sys_claims_ext(cfg, order[k + 1], ext_l));
        }
        lemma_find_by_ext_at(cfg, order.drop_first(), ext_l, i - 1);
    }
}

proof fn lemma_find_by_ext_none(cfg: ConfigView, order: Seq<Seq<char>>, ext_l: Seq<char>)
    requires
        forall|k: int| 0 <= k < order.len() ==> !sys_claims_ext(cfg, order[k], ext_l),
    ensures
        find_by_ext(cfg, order, ext_l) is None,
    decreases order.len(),
{
    if order.len() > 0 {
        assert forall|k: int| 0 <= k < order.len() - 1 implies !sys_claims_ext(
            cfg,
            order.drop_first()[k],
            ext_l,
        ) by {
            assert(!sys_claims_ext(cfg, order[k + 1], ext_l));
        }
        lemma_find_by_ext_none(cfg, order.drop_first(), ext_l);
    }
}

fn sys_claims_ext_exec(cfg: &ConfigFile, sys: &str, ext_l: &str) -> (r: bool)
    ensures
        r == sys_claims_ext(cfg@, sys@, ext_l@),
{
    match &cfg.systems {
        None => false,
        Some(systems) => {
            proof {
                assert(config_systems(cfg@) == systems_view(*systems));
            }
            match find_template_index(systems, sys) {
                None => false,
                Some(ti) => {
                    let tmpl = &systems[ti].1;
                    proof {
                        assert(systems_view(*systems)[ti as int].1 == tmpl@);
                    }
                    match &tmpl.extensions {
                        None => false,
                        Some(exts) => {
                            let mut k: usize = 0;
                            while k < exts.len()
                                invariant
                                    k <= exts.len(),
                                    template_for(cfg@, sys@) == Some(tmpl@),
                                    tmpl@.extensions == Some(exts.deep_view()),
                                    forall|j: int|
                                        0 <= j < k ==> lower_of(#[trigger] exts.deep_view()[j])
                                            != ext_l@,
                                decreases exts.len() - k,
                            {
                                let vl = lowercase(exts[k].as_str());
                                if str_eq(vl.as_str(), ext_l) {
                                    proof {
                                        assert(template_for(cfg@, sys@) == Some(tmpl@));
                                        assert(tmpl@.extensions == Some(exts.deep_view()));
                                        assert(lower_of(exts.deep_view()[k as int]) == ext_l@);
                                        assert(ext_in_list(exts.deep_view(), ext_l@));
                                        assert(sys_claims_ext(cfg@, sys@, ext_l@));
                                    }
                                    return true;
                                }
                                k = k + 1;
                            }
                            false
                        },
                    }
                },
            }
        },
    }
}

/// Find which configured system claims a file extension, walking the
/// display order: the first system whose `extensions` list contains `ext`,
/// compared case-insensitively, wins.
pub fn find_system_for_extension(ext: &str, cfg: &ConfigFile, systems_order: &Vec<String>) -> (r:
    Option<String>)
    ensures
        match r {
            Some(s) => Some(s@) == find_by_ext(cfg@, systems_order.deep_view(), lower_of(ext@)),
            None => find_by_ext(cfg@, systems_order.deep_view(), lower_of(ext@)) is None,
        },
{
    let el = lowercase(ext);
    let ghost order = systems_order.deep_view();
    let mut i: usize = 0;
    while i < systems_order.len()
        invariant
            i <= systems_order.len(),
            el@ == lower_of(ext@),
            order == systems_order.deep_view(),
            order.len() == systems_order.len(),
            forall|j: int| 0 <= j < i ==> !sys_claims_ext(cfg@, #[trigger] order[j], lower_of(ext@)),
        decreases systems_order.len() - i,
    {
        if sys_claims_ext_exec(cfg, systems_order[i].as_str(), el.as_str()) {
            proof {
                lemma_find_by_ext_at(cfg@, order, lower_of(ext@), i as int);
            }
            return Some(systems_order[i].clone());
        }
        i = i + 1;
    }
    proof {
        lemma_find_by_ext_none(cfg@, order, lower_of(ext@));
    }
    None
}

/// Extension resolution is deterministic and order-dependent: when two
/// systems in the display order both claim an extension and no system
/// before the first of them claims it, resolution returns the earlier one.
pub proof fn lemma_extension_resolution_order(
    cfg: ConfigView,
    order: Seq<Seq<char>>,
    ext_l: Seq<char>,
    i: int,
    j: int,
)
    requires
        0 <= i < j < order.len(),
        sys_claims_ext(cfg, order[i], ext_l),
        sys_claims_ext(cfg, order[j], ext_l),
        forall|k: int| 0 <= k < i ==> !sys_claims_ext(cfg, order[k], ext_l),
    ensures
        find_by_ext(cfg, order, ext_l) == Some(order[i]),
{
    lemma_find_by_ext_at(cfg, order, ext_l, i);
}

// ---------------------------------------------------------------------------
// Order stability of scanning
// ---------------------------------------------------------------------------
proof fn lemma_filter_to_multiset<A>(s: Seq<A>, pred: spec_fn(A) -> bool)
    ensures
        s.filter(pred).to_multiset() == s.to_multiset().filter(pred),
    decreases s.len(),
{
    broadcast use vstd::multiset::group_multiset_axioms;
    broadcast use vstd::multiset::group_multiset_properties;
    broadcast use vstd::seq_lib::group_to_multiset_ensures;

    if s.len() == 0 {
        reveal(Seq::filter);
        assert(s.filter(pred) == s);
        assert(s.to_multiset().len() == 0);
        assert(s.to_multiset().filter(pred) =~= s.to_multiset());
    } else {
        let butlast = s.drop_last();
        let x = s.last();
        lemma_filter_to_multiset(butlast, pred);
        lemma_filter_push(butlast, pred, x);
        assert(butlast.push(x) =~= s);
        vstd::seq_lib::to_multiset_build(butlast, x);
        let mb = butlast.to_multiset();
        assert(s.to_multiset() == mb.insert(x));
        if pred(x) {
            vstd::seq_lib::to_multiset_build(butlast.filter(pred), x);
            assert(s.filter(pred).to_multiset() == butlast.filter(pred).to_multiset().insert(x));
            assert forall|v: A| mb.insert(x).filter(pred).count(v) == mb.filter(pred).insert(
                x,
            ).count(v) by {
                if v == x {
                    assert(mb.insert(x).count(x) == mb.count(x) + 1);
                    assert(mb.filter(pred).insert(x).count(x) == mb.filter(pred).count(x) + 1);
                } else {
                    assert(mb.insert(x).count(v) == mb.count(v));
                    assert(mb.filter(pred).insert(x).count(v) == mb.filter(pred).count(v));
                }
            }
            assert(mb.insert(x).filter(pred) =~= mb.filter(pred).insert(x));
        } else {
            assert forall|v: A| mb.insert(x).filter(pred).count(v) == mb.filter(pred).count(v) by {
                if v == x {
                } else {
                    assert(mb.insert(x).count(v) == mb.count(v));
                }
            }
            assert(mb.insert(x).filter(pred) =~= mb.filter(pred));
        }
    }
}

proof fn lemma_group_stable(
    cfg: ConfigView,
    files1: Seq<Seq<char>>,
    files2: Seq<Seq<char>>,
    sys: Seq<char>,
)
    requires
        files1.to_multiset() == files2.to_multiset(),
    ensures
        group_for(cfg, files1, sys) == group_for(cfg, files2, sys),
{
    broadcast use vstd::seq_lib::group_to_multiset_ensures;

    let pred = group_pred(cfg, sys);
    lemma_filter_to_multiset(files1, pred);
    lemma_filter_to_multiset(files2, pred);
    assert(files1.filter(pred).to_multiset() == files2.filter(pred).to_multiset());
    lemma_lex_leq_total_ordering();
    files1.filter(pred).lemma_sort_by_ensures(lex_leq_fn());
    files2.filter(pred).lemma_sort_by_ensures(lex_leq_fn());
    vstd::seq_lib::lemma_sorted_unique(
        group_for(cfg, files1, sys),
        group_for(cfg, files2, sys),
        lex_leq_fn(),
    );
}

proof fn lemma_scan_index_stable(
    cfg: ConfigView,
    systems: Seq<(Seq<char>, TemplateView)>,
    files1: Seq<Seq<char>>,
    files2: Seq<Seq<char>>,
)
    requires
        files1.to_multiset() == files2.to_multiset(),
    ensures
        scan_index(cfg, systems, files1) == scan_index(cfg, systems, files2),
    decreases systems.len(),
{
    if systems.len() > 0 {
        lemma_group_stable(cfg, files1, files2, systems[0].0);
        lemma_scan_index_stable(cfg, systems.drop_first(), files1, files2);
    }
}

/// Scanning is idempotent and order-stable: two listings of the same files,
/// in whatever order a directory walk reported them, produce the same
/// index, each per-system list sorted.
pub proof fn lemma_scan_order_stable(
    cfg: ConfigView,
    files1: Seq<Seq<char>>,
    files2: Seq<Seq<char>>,
)
    requires
        files1.to_multiset() == files2.to_multiset(),
    ensures
        scan_view(cfg, files1) == scan_view(cfg, files2),
{
    lemma_scan_index_stable(cfg, config_systems(cfg), files1, files2);
}

} // verus!
