//! Normalization: builds the resolved model of a bundle, or reports every
//! resolution problem found.
use vstd::prelude::*;
use crate::ast::{Component, ContractBag, Event, Spec, clone_values};
use crate::diagnostics::{Diagnostic, DiagnosticModel, DiagnosticSet, plain_error};
use crate::ir::{NormalizedComponent, NormalizedComponentUse, NormalizedConnection, NormalizedEvent, NormalizedField, NormalizedPersistence, NormalizedPort, NormalizedSpec, NormalizedStateField, NormalizedTransition};
use crate::name_map::{NameMap, has_key, keys_of, keys_sorted, lookup, sorted_insert, lemma_sorted_insert_entries, lemma_sorted_insert_append, lemma_same_keys_has_key, lemma_insert_related};
use crate::resolve::{qualified, qualify, spec_resolve, resolve_component_name, resolve_event_name, spec_parse_endpoint, parse_endpoint};
use crate::schema::{ConnectionLocality, PortDirection};
use crate::text::str_equal;
use crate::value::items_model;

verus! {

/// One file of a bundle as the normalizer reads it.
pub struct SourceFile<'a> {
    pub path: &'a str,
    pub package: &'a str,
    pub spec: &'a Spec,
}

/// The contents of a list of diagnostics.
pub open spec fn dm(s: Seq<Diagnostic>) -> Seq<DiagnosticModel> {
    s.map_values(|d: Diagnostic| d@)
}

/// Pushing a diagnostic pushes its content.
pub proof fn lemma_dm_push(s: Seq<Diagnostic>, d: Diagnostic)
    ensures
        dm(s.push(d)) == dm(s).push(d@),
{
    assert(dm(s.push(d)) =~= dm(s).push(d@));
}

/// Appends a diagnostic; the contents grow by its content.
pub fn push_diag(diagnostics: &mut Vec<Diagnostic>, d: Diagnostic)
    ensures
        dm(final(diagnostics)@) == dm(old(diagnostics)@).push(d@),
{
    proof {
        lemma_dm_push(diagnostics@, d);
    }
    diagnostics.push(d);
}

// ---------------------------------------------------------------------------
// The entry file and the version check.

/// The index of the first file whose path is `entry`.
pub open spec fn entry_index_from(files: Seq<SourceFile>, entry: Seq<char>, i: int) -> Option<int>
    decreases files.len() - i,
{
    if i < 0 || i >= files.len() {
        None
    } else if files[i].path@ == entry {
        Some(i)
    } else {
        entry_index_from(files, entry, i + 1)
    }
}

/// The index of the entry file.
pub open spec fn entry_index(files: Seq<SourceFile>, entry: Seq<char>) -> Option<int> {
    entry_index_from(files, entry, 0)
}

/// The message for a file whose version differs from the entry file's.
pub open spec fn version_mismatch_message(path: Seq<char>, version: Seq<char>, entry_version: Seq<char>) -> Seq<char> {
    "Imported file `"@ + path + "` uses version `"@ + version + "`, but the entry file uses `"@
        + entry_version + "`."@
}

/// The diagnostics for the first `n` files whose version differs from
/// `entry_version`.
pub open spec fn version_diags(files: Seq<SourceFile>, entry_version: Seq<char>, n: int) -> Seq<DiagnosticModel>
    decreases n,
{
    if n <= 0 {
        Seq::empty()
    } else {
        let prev = version_diags(files, entry_version, n - 1);
        let f = files[n - 1];
        if f.spec.version@ != entry_version {
            prev.push(plain_error("HNK2000"@, version_mismatch_message(f.path@, f.spec.version@, entry_version)))
        } else {
            prev
        }
    }
}

fn find_entry(files: &Vec<SourceFile>, entry: &str) -> (r: Option<usize>)
    ensures
        r matches Some(i) ==> entry_index(files@, entry@) == Some(i as int) && i < files@.len(),
        r is None ==> entry_index(files@, entry@) is None,
{
    let mut i: usize = 0;
    while i < files.len()
        invariant
            i <= files@.len(),
            entry_index(files@, entry@) == entry_index_from(files@, entry@, i as int),
        decreases files@.len() - i,
    {
        if str_equal(files[i].path, entry) {
            return Some(i);
        }
        i = i + 1;
    }
    None
}

fn check_versions(files: &Vec<SourceFile>, entry_version: &str, diagnostics: &mut Vec<Diagnostic>)
    ensures
        dm(final(diagnostics)@) == dm(old(diagnostics)@) + version_diags(files@, entry_version@, files@.len() as int),
{
    let ghost start = dm(diagnostics@);
    let mut i: usize = 0;
    while i < files.len()
        invariant
            i <= files@.len(),
            dm(diagnostics@) == start + version_diags(files@, entry_version@, i as int),
        decreases files@.len() - i,
    {
        let f = &files[i];
        if !str_equal(f.spec.version.as_str(), entry_version) {
            let mut m = String::new();
            m.append("Imported file `");
            m.append(f.path);
            m.append("` uses version `");
            m.append(f.spec.version.as_str());
            m.append("`, but the entry file uses `");
            m.append(entry_version);
            m.append("`.");
            let d = Diagnostic::error("HNK2000", m);
            push_diag(diagnostics, d);
            assert(dm(diagnostics@) =~= start + version_diags(files@, entry_version@, i + 1));
        }
        i = i + 1;
    }
}

// ---------------------------------------------------------------------------
// Collecting declarations.

/// The declarations found so far, each a qualified name with the file index
/// and the declaration's index in that file, and the diagnostics raised.
pub struct DeclFold {
    pub map: Seq<(Seq<char>, (usize, usize))>,
    pub diags: Seq<DiagnosticModel>,
}

/// The number of events (`events`) or components of a file.
pub open spec fn decl_count(files: Seq<SourceFile>, fi: int, events: bool) -> int {
    if events {
        files[fi].spec.events@.len() as int
    } else {
        files[fi].spec.components@.len() as int
    }
}

/// The name of the `di`-th event (`events`) or component of a file.
pub open spec fn decl_name(files: Seq<SourceFile>, fi: int, di: int, events: bool) -> Seq<char> {
    if events {
        files[fi].spec.events@[di].name@
    } else {
        files[fi].spec.components@[di].name@
    }
}

/// The message for a name declared twice.
pub open spec fn duplicate_decl_message(q: Seq<char>, events: bool) -> Seq<char> {
    if events {
        "Duplicate event name `"@ + q + "`. Event names must be unique within a package."@
    } else {
        "Duplicate component name `"@ + q + "`. Component names must be unique within a package."@
    }
}

/// The code for a name declared twice.
pub open spec fn duplicate_decl_code(events: bool) -> Seq<char> {
    if events { "HNK2001"@ } else { "HNK2003"@ }
}

/// One declaration: recorded under its qualified name, or reported when that
/// name is taken.
pub open spec fn decl_step(st: DeclFold, files: Seq<SourceFile>, fi: int, di: int, events: bool) -> DeclFold {
    let q = qualified(files[fi].package@, decl_name(files, fi, di, events));
    if has_key(st.map, q) {
        DeclFold {
            map: st.map,
            diags: st.diags.push(plain_error(duplicate_decl_code(events), duplicate_decl_message(q, events))),
        }
    } else {
        DeclFold { map: sorted_insert(st.map, q, (fi as usize, di as usize)), diags: st.diags }
    }
}

/// The fold after the first `m` declarations of file `fi`, from `st`.
pub open spec fn decls_in_file(st: DeclFold, files: Seq<SourceFile>, fi: int, m: int, events: bool) -> DeclFold
    decreases m,
{
    if m <= 0 {
        st
    } else {
        decl_step(decls_in_file(st, files, fi, m - 1, events), files, fi, m - 1, events)
    }
}

/// The fold after the first `n` files.
pub open spec fn decls_upto(files: Seq<SourceFile>, n: int, events: bool) -> DeclFold
    decreases n,
{
    if n <= 0 {
        DeclFold { map: Seq::empty(), diags: Seq::empty() }
    } else {
        decls_in_file(decls_upto(files, n - 1, events), files, n - 1, decl_count(files, n - 1, events), events)
    }
}

/// All declarations of a bundle (events or components).
pub open spec fn all_decls(files: Seq<SourceFile>, events: bool) -> DeclFold {
    decls_upto(files, files.len() as int, events)
}

/// Every recorded declaration points at a declaration of the bundle, and is
/// keyed by that declaration's qualified name.
pub open spec fn decls_valid(m: Seq<(Seq<char>, (usize, usize))>, files: Seq<SourceFile>, events: bool) -> bool {
    forall|i: int| #![trigger m[i]]
        0 <= i < m.len() ==> {
            let fi = m[i].1.0 as int;
            let di = m[i].1.1 as int;
            &&& 0 <= fi < files.len()
            &&& 0 <= di < decl_count(files, fi, events)
            &&& m[i].0 == qualified(files[fi].package@, decl_name(files, fi, di, events))
        }
}

fn collect_decls(files: &Vec<SourceFile>, events: bool, diagnostics: &mut Vec<Diagnostic>) -> (r: NameMap<(usize, usize)>)
    ensures
        r@ == all_decls(files@, events).map,
        decls_valid(r@, files@, events),
        dm(final(diagnostics)@) == dm(old(diagnostics)@) + all_decls(files@, events).diags,
{
    let ghost start = dm(diagnostics@);
    let mut map: NameMap<(usize, usize)> = NameMap::new();
    let mut fi: usize = 0;
    while fi < files.len()
        invariant
            fi <= files@.len(),
            map@ == decls_upto(files@, fi as int, events).map,
            decls_valid(map@, files@, events),
            dm(diagnostics@) == start + decls_upto(files@, fi as int, events).diags,
        decreases files@.len() - fi,
    {
        let file = &files[fi];
        let count = if events { file.spec.events.len() } else { file.spec.components.len() };
        let ghost base = decls_upto(files@, fi as int, events);
        let mut di: usize = 0;
        while di < count
            invariant
                fi < files@.len(),
                *file == files@[fi as int],
                count == decl_count(files@, fi as int, events),
                di <= count,
                base == decls_upto(files@, fi as int, events),
                map@ == decls_in_file(base, files@, fi as int, di as int, events).map,
                decls_valid(map@, files@, events),
                dm(diagnostics@) == start + decls_in_file(base, files@, fi as int, di as int, events).diags,
            decreases count - di,
        {
            let name = if events { file.spec.events[di].name.as_str() } else { file.spec.components[di].name.as_str() };
            let q = qualify(file.package, name);
            if map.contains_key(q.as_str()) {
                let mut m = String::new();
                if events {
                    m.append("Duplicate event name `");
                    m.append(q.as_str());
                    m.append("`. Event names must be unique within a package.");
                } else {
                    m.append("Duplicate component name `");
                    m.append(q.as_str());
                    m.append("`. Component names must be unique within a package.");
                }
                let d = Diagnostic::error(if events { "HNK2001" } else { "HNK2003" }, m);
                push_diag(diagnostics, d);
                assert(dm(diagnostics@) =~= start + decls_in_file(base, files@, fi as int, di + 1, events).diags);
            } else {
                proof {
                    lemma_sorted_insert_entries(map@, q@, (fi, di));
                }
                map.insert(q, (fi, di));
            }
            di = di + 1;
        }
        fi = fi + 1;
    }
    map
}

/// Event declarations by qualified name; duplicates are reported.
pub fn collect_event_decls(files: &Vec<SourceFile>, diagnostics: &mut Vec<Diagnostic>) -> (r: NameMap<(usize, usize)>)
    ensures
        r@ == all_decls(files@, true).map,
        decls_valid(r@, files@, true),
        dm(final(diagnostics)@) == dm(old(diagnostics)@) + all_decls(files@, true).diags,
{
    collect_decls(files, true, diagnostics)
}

/// Component declarations by qualified name; duplicates are reported.
pub fn collect_component_decls(files: &Vec<SourceFile>, diagnostics: &mut Vec<Diagnostic>) -> (r: NameMap<(usize, usize)>)
    ensures
        r@ == all_decls(files@, false).map,
        decls_valid(r@, files@, false),
        dm(final(diagnostics)@) == dm(old(diagnostics)@) + all_decls(files@, false).diags,
{
    collect_decls(files, false, diagnostics)
}

} // verus!

verus! {

// ---------------------------------------------------------------------------
// Building events.

/// The fields of a resolved event copy the declared fields.
pub open spec fn fields_copied(nf: Seq<NormalizedField>, f: Seq<crate::ast::Field>) -> bool {
    &&& nf.len() == f.len()
    &&& forall|i: int| #![trigger nf[i]]
        0 <= i < nf.len() ==> nf[i].name == f[i].name && nf[i].field_type == f[i].field_type && nf[i].doc
            == f[i].doc
}

/// A resolved event built from the declaration of `e` in `file` under the
/// qualified name `q`.
pub open spec fn event_built(ev: NormalizedEvent, q: Seq<char>, file: SourceFile, e: Event) -> bool {
    &&& ev.package@ == file.package@
    &&& ev.name == e.name
    &&& ev.qualified_name@ == q
    &&& ev.source_path@ == file.path@
    &&& fields_copied(ev.fields@, e.fields@)
    &&& ev.visibility == e.visibility
    &&& ev.version == e.version
    &&& ev.deprecated_since == (match e.deprecated {
        Some(d) => d.since,
        None => None,
    })
    &&& ev.deprecated_note == (match e.deprecated {
        Some(d) => d.note,
        None => None,
    })
    &&& ev.doc == e.doc
    &&& ev.kind == e.kind
    &&& ev.contracts@ == e.contracts@
}

/// The resolved events follow the event declarations one for one.
pub open spec fn events_built(
    r: Seq<(Seq<char>, NormalizedEvent)>,
    decls: Seq<(Seq<char>, (usize, usize))>,
    files: Seq<SourceFile>,
) -> bool {
    &&& r.len() == decls.len()
    &&& forall|i: int| #![trigger r[i]]
        0 <= i < r.len() ==> r[i].0 == decls[i].0 && event_built(
            r[i].1,
            decls[i].0,
            files[decls[i].1.0 as int],
            files[decls[i].1.0 as int].spec.events@[decls[i].1.1 as int],
        )
}

fn build_event(q: &String, file: &SourceFile, e: &Event) -> (r: NormalizedEvent)
    ensures
        event_built(r, q@, *file, *e),
{
    let mut fields: Vec<NormalizedField> = Vec::new();
    let mut i: usize = 0;
    while i < e.fields.len()
        invariant
            i <= e.fields@.len(),
            fields@.len() == i,
            forall|j: int| #![trigger fields@[j]]
                0 <= j < i ==> fields@[j].name == e.fields@[j].name && fields@[j].field_type
                    == e.fields@[j].field_type && fields@[j].doc == e.fields@[j].doc,
        decreases e.fields@.len() - i,
    {
        let f = &e.fields[i];
        fields.push(NormalizedField { name: f.name.clone(), field_type: f.field_type.clone(), doc: f.doc.clone() });
        i = i + 1;
    }
    let (since, note) = match &e.deprecated {
        Some(d) => (d.since.clone(), d.note.clone()),
        None => (None, None),
    };
    NormalizedEvent {
        package: file.package.to_owned(),
        name: e.name.clone(),
        qualified_name: q.clone(),
        source_path: file.path.to_owned(),
        fields,
        visibility: e.visibility,
        version: e.version.clone(),
        deprecated_since: since,
        deprecated_note: note,
        doc: e.doc.clone(),
        kind: e.kind.clone(),
        contracts: e.contracts.clone(),
    }
}

/// The resolved events, one per declaration, under the same names.
pub fn build_events(decls: &NameMap<(usize, usize)>, files: &Vec<SourceFile>) -> (r: NameMap<NormalizedEvent>)
    requires
        decls_valid(decls@, files@, true),
    ensures
        events_built(r@, decls@, files@),
{
    let mut out: NameMap<NormalizedEvent> = NameMap::new();
    let n = decls.len();
    let mut i: usize = 0;
    while i < n
        invariant
            n == decls@.len(),
            keys_sorted(decls@),
            decls_valid(decls@, files@, true),
            i <= n,
            out@.len() == i,
            forall|j: int| #![trigger out@[j]]
                0 <= j < i ==> out@[j].0 == decls@[j].0 && event_built(
                    out@[j].1,
                    decls@[j].0,
                    files@[decls@[j].1.0 as int],
                    files@[decls@[j].1.0 as int].spec.events@[decls@[j].1.1 as int],
                ),
        decreases n - i,
    {
        let (q, idx) = decls.entry(i);
        let (fi, ei) = *idx;
        let file = &files[fi];
        let ev = build_event(q, file, &file.spec.events[ei]);
        proof {
            assert forall|j: int| 0 <= j < out@.len() implies crate::text::str_lt(#[trigger] out@[j].0, q@) by {
                assert(out@[j].0 == decls@[j].0);
            }
            lemma_sorted_insert_append(out@, q@, ev);
        }
        out.insert(q.clone(), ev);
        i = i + 1;
    }
    out
}

} // verus!

verus! {

// ---------------------------------------------------------------------------
// Building components: subcomponent instances.

/// The views of a list of strings.
pub open spec fn views(s: Seq<String>) -> Seq<Seq<char>> {
    s.map_values(|x: String| x@)
}

/// The instances recorded so far (name to instance index and resolved
/// component) and the diagnostics raised.
pub struct UsesFold {
    pub map: Seq<(Seq<char>, (usize, Seq<char>))>,
    pub diags: Seq<DiagnosticModel>,
}

/// The message for a name defined twice in one component.
pub open spec fn defined_twice_message(q: Seq<char>, what: Seq<char>, name: Seq<char>) -> Seq<char> {
    "Component `"@ + q + "` defines "@ + what + " `"@ + name + "` more than once."@
}

fn defined_twice(code: &str, q: &str, what: &str, name: &str) -> (r: Diagnostic)
    ensures
        r@ == plain_error(code@, defined_twice_message(q@, what@, name@)),
{
    let mut m = String::new();
    m.append("Component `");
    m.append(q);
    m.append("` defines ");
    m.append(what);
    m.append(" `");
    m.append(name);
    m.append("` more than once.");
    Diagnostic::error(code, m)
}

/// One instance: reported when its name is taken, otherwise its component
/// reference is resolved and, when that succeeds, it is recorded.
pub open spec fn uses_step(st: UsesFold, package: Seq<char>, q: Seq<char>, comp: Component, comp_keys: Seq<Seq<char>>, k: int) -> UsesFold {
    let u = comp.uses@[k];
    if has_key(st.map, u.name@) {
        UsesFold {
            map: st.map,
            diags: st.diags.push(plain_error("HNK2002"@, defined_twice_message(q, "subcomponent instance"@, u.name@))),
        }
    } else {
        let (res, ds) = spec_resolve(package, u.component@, comp_keys, "component"@, "used component"@);
        match res {
            Some(c) => UsesFold { map: sorted_insert(st.map, u.name@, (k as usize, c)), diags: st.diags + ds },
            None => UsesFold { map: st.map, diags: st.diags + ds },
        }
    }
}

/// The fold after the first `n` instances.
pub open spec fn uses_fold(package: Seq<char>, q: Seq<char>, comp: Component, comp_keys: Seq<Seq<char>>, n: int) -> UsesFold
    decreases n,
{
    if n <= 0 {
        UsesFold { map: Seq::empty(), diags: Seq::empty() }
    } else {
        uses_step(uses_fold(package, q, comp, comp_keys, n - 1), package, q, comp, comp_keys, n - 1)
    }
}

/// A resolved instance built from the `k`-th instance of `comp`.
pub open spec fn use_built(u: NormalizedComponentUse, comp: Component, k: usize, resolved: Seq<char>) -> bool {
    &&& (k as int) < comp.uses@.len()
    &&& u.name == comp.uses@[k as int].name
    &&& u.component@ == resolved
    &&& u.doc == comp.uses@[k as int].doc
}

/// Resolved entries follow the fold one for one.
pub open spec fn uses_match(r: Seq<(Seq<char>, NormalizedComponentUse)>, m: Seq<(Seq<char>, (usize, Seq<char>))>, comp: Component) -> bool {
    &&& r.len() == m.len()
    &&& forall|i: int| 0 <= i < r.len() ==> (#[trigger] r[i]).0 == m[i].0 && use_built(r[i].1, comp, m[i].1.0, m[i].1.1)
}

fn build_uses(
    q: &String,
    package: &str,
    comp: &Component,
    comp_keys: &Vec<String>,
    diagnostics: &mut Vec<Diagnostic>,
) -> (r: NameMap<NormalizedComponentUse>)
    ensures
        uses_match(r@, uses_fold(package@, q@, *comp, views(comp_keys@), comp.uses@.len() as int).map, *comp),
        dm(final(diagnostics)@) == dm(old(diagnostics)@) + uses_fold(package@, q@, *comp, views(comp_keys@), comp.uses@.len() as int).diags,
{
    let ghost start = dm(diagnostics@);
    let ghost keys = views(comp_keys@);
    let mut out: NameMap<NormalizedComponentUse> = NameMap::new();
    let mut k: usize = 0;
    while k < comp.uses.len()
        invariant
            k <= comp.uses@.len(),
            keys == views(comp_keys@),
            uses_match(out@, uses_fold(package@, q@, *comp, keys, k as int).map, *comp),
            dm(diagnostics@) == start + uses_fold(package@, q@, *comp, keys, k as int).diags,
        decreases comp.uses@.len() - k,
    {
        let ghost st = uses_fold(package@, q@, *comp, keys, k as int);
        let u = &comp.uses[k];
        proof {
            lemma_same_keys_has_key(out@, st.map, u.name@);
        }
        if out.contains_key(u.name.as_str()) {
            push_diag(diagnostics, defined_twice("HNK2002", q.as_str(), "subcomponent instance", u.name.as_str()));
            assert(dm(diagnostics@) =~= start + uses_fold(package@, q@, *comp, keys, k + 1).diags);
        } else {
            let ghost before = dm(diagnostics@);
            let resolved = resolve_component_name(package, u.component.as_str(), comp_keys, "used component", diagnostics);
            match resolved {
                Some(c) => {
                    let nu = NormalizedComponentUse { name: u.name.clone(), component: c, doc: u.doc.clone() };
                    let ghost rel = |x: NormalizedComponentUse, y: (usize, Seq<char>)| use_built(x, *comp, y.0, y.1);
                    proof {
                        lemma_insert_related(out@, st.map, u.name@, nu, (k, nu.component@), rel);
                    }
                    out.insert(u.name.clone(), nu);
                },
                None => {},
            }
            assert(dm(diagnostics@) =~= start + uses_fold(package@, q@, *comp, keys, k + 1).diags);
        }
        k = k + 1;
    }
    out
}

} // verus!

verus! {

// ---------------------------------------------------------------------------
// Building components: ports.

/// Adding a name to a sorted set of names.
pub open spec fn set_add(s: Seq<(Seq<char>, ())>, k: Seq<char>) -> Seq<(Seq<char>, ())> {
    if has_key(s, k) { s } else { sorted_insert(s, k, ()) }
}

/// The ports recorded so far (name to port index and resolved event), the
/// events of the `in` and `out` ports, and the diagnostics raised.
pub struct PortsFold {
    pub map: Seq<(Seq<char>, (usize, Seq<char>))>,
    pub inbound: Seq<(Seq<char>, ())>,
    pub outbound: Seq<(Seq<char>, ())>,
    pub diags: Seq<DiagnosticModel>,
}

/// One port: reported when its name is taken, otherwise its event is
/// resolved and, when that succeeds, the port and its event are recorded.
pub open spec fn ports_step(st: PortsFold, package: Seq<char>, q: Seq<char>, comp: Component, event_keys: Seq<Seq<char>>, k: int) -> PortsFold {
    let p = comp.ports@[k];
    if has_key(st.map, p.name@) {
        PortsFold {
            diags: st.diags.push(plain_error("HNK2004"@, defined_twice_message(q, "port"@, p.name@))),
            ..st
        }
    } else {
        let (res, ds) = spec_resolve(package, p.event@, event_keys, "event"@, "port event"@);
        match res {
            Some(e) => PortsFold {
                map: sorted_insert(st.map, p.name@, (k as usize, e)),
                inbound: if p.direction == PortDirection::In { set_add(st.inbound, e) } else { st.inbound },
                outbound: if p.direction == PortDirection::Out { set_add(st.outbound, e) } else { st.outbound },
                diags: st.diags + ds,
            },
            None => PortsFold { diags: st.diags + ds, ..st },
        }
    }
}

/// The fold after the first `n` ports.
pub open spec fn ports_fold(package: Seq<char>, q: Seq<char>, comp: Component, event_keys: Seq<Seq<char>>, n: int) -> PortsFold
    decreases n,
{
    if n <= 0 {
        PortsFold { map: Seq::empty(), inbound: Seq::empty(), outbound: Seq::empty(), diags: Seq::empty() }
    } else {
        ports_step(ports_fold(package, q, comp, event_keys, n - 1), package, q, comp, event_keys, n - 1)
    }
}

/// A resolved port built from the `k`-th port of the component `q`.
pub open spec fn port_built(p: NormalizedPort, q: Seq<char>, comp: Component, k: usize, event: Seq<char>) -> bool {
    &&& (k as int) < comp.ports@.len()
    &&& p.component_name@ == q
    &&& p.name == comp.ports@[k as int].name
    &&& p.qualified_name@ == qualified(q, comp.ports@[k as int].name@)
    &&& p.direction == comp.ports@[k as int].direction
    &&& p.event@ == event
    &&& p.contracts@ == comp.ports@[k as int].contracts@
    &&& p.doc == comp.ports@[k as int].doc
}

/// Resolved ports follow the fold one for one.
pub open spec fn ports_match(r: Seq<(Seq<char>, NormalizedPort)>, m: Seq<(Seq<char>, (usize, Seq<char>))>, q: Seq<char>, comp: Component) -> bool {
    &&& r.len() == m.len()
    &&& forall|i: int| 0 <= i < r.len() ==> (#[trigger] r[i]).0 == m[i].0 && port_built(r[i].1, q, comp, m[i].1.0, m[i].1.1)
}

fn set_insert(s: &mut NameMap<()>, k: &String)
    ensures
        final(s)@ == set_add(old(s)@, k@),
{
    if !s.contains_key(k.as_str()) {
        s.insert(k.clone(), ());
    }
}

/// The ports of a component, with the events of its `in` and `out` ports.
fn build_ports(
    q: &String,
    package: &str,
    comp: &Component,
    event_keys: &Vec<String>,
    diagnostics: &mut Vec<Diagnostic>,
) -> (r: (NameMap<NormalizedPort>, NameMap<()>, NameMap<()>))
    ensures
        ({
            let f = ports_fold(package@, q@, *comp, views(event_keys@), comp.ports@.len() as int);
            &&& ports_match(r.0@, f.map, q@, *comp)
            &&& r.1@ == f.inbound
            &&& r.2@ == f.outbound
            &&& dm(final(diagnostics)@) == dm(old(diagnostics)@) + f.diags
        }),
{
    let ghost start = dm(diagnostics@);
    let ghost keys = views(event_keys@);
    let mut out: NameMap<NormalizedPort> = NameMap::new();
    let mut inbound: NameMap<()> = NameMap::new();
    let mut outbound: NameMap<()> = NameMap::new();
    let mut k: usize = 0;
    while k < comp.ports.len()
        invariant
            k <= comp.ports@.len(),
            keys == views(event_keys@),
            ports_match(out@, ports_fold(package@, q@, *comp, keys, k as int).map, q@, *comp),
            inbound@ == ports_fold(package@, q@, *comp, keys, k as int).inbound,
            outbound@ == ports_fold(package@, q@, *comp, keys, k as int).outbound,
            dm(diagnostics@) == start + ports_fold(package@, q@, *comp, keys, k as int).diags,
        decreases comp.ports@.len() - k,
    {
        let ghost st = ports_fold(package@, q@, *comp, keys, k as int);
        let p = &comp.ports[k];
        proof {
            lemma_same_keys_has_key(out@, st.map, p.name@);
        }
        if out.contains_key(p.name.as_str()) {
            push_diag(diagnostics, defined_twice("HNK2004", q.as_str(), "port", p.name.as_str()));
            assert(dm(diagnostics@) =~= start + ports_fold(package@, q@, *comp, keys, k + 1).diags);
        } else {
            let resolved = resolve_event_name(package, p.event.as_str(), event_keys, "port event", diagnostics);
            match resolved {
                Some(e) => {
                    match p.direction {
                        PortDirection::In => set_insert(&mut inbound, &e),
                        PortDirection::Out => set_insert(&mut outbound, &e),
                    }
                    let np = NormalizedPort {
                        component_name: q.clone(),
                        name: p.name.clone(),
                        qualified_name: qualify(q.as_str(), p.name.as_str()),
                        direction: p.direction,
                        event: e,
                        contracts: p.contracts.clone(),
                        doc: p.doc.clone(),
                    };
                    let ghost rel = |x: NormalizedPort, y: (usize, Seq<char>)| port_built(x, q@, *comp, y.0, y.1);
                    proof {
                        lemma_insert_related(out@, st.map, p.name@, np, (k, np.event@), rel);
                    }
                    out.insert(p.name.clone(), np);
                },
                None => {},
            }
            assert(dm(diagnostics@) =~= start + ports_fold(package@, q@, *comp, keys, k + 1).diags);
        }
        k = k + 1;
    }
    (out, inbound, outbound)
}

/// The names of a set, in increasing order.
fn set_names(s: &NameMap<()>) -> (r: Vec<String>)
    ensures
        views(r@) == keys_of(s@),
{
    let mut r: Vec<String> = Vec::new();
    let n = s.len();
    let mut i: usize = 0;
    while i < n
        invariant
            n == s@.len(),
            i <= n,
            views(r@) == keys_of(s@).take(i as int),
        decreases n - i,
    {
        let ghost old_r = r@;
        let key = s.key_at(i).clone();
        r.push(key);
        assert(r@ == old_r.push(key));
        assert(views(r@) =~= views(old_r).push(key@));
        assert(keys_of(s@).take(i + 1) =~= keys_of(s@).take(i as int).push(s@[i as int].0));
        assert(views(r@) =~= keys_of(s@).take(i + 1));
        i = i + 1;
    }
    assert(keys_of(s@).take(n as int) =~= keys_of(s@));
    r
}

} // verus!

verus! {

// ---------------------------------------------------------------------------
// Building components: state fields.

/// The state fields recorded so far (name to field index) and the
/// diagnostics raised.
pub struct StateFold {
    pub map: Seq<(Seq<char>, usize)>,
    pub diags: Seq<DiagnosticModel>,
}

/// The fold after the first `n` state fields.
pub open spec fn state_fold(q: Seq<char>, comp: Component, n: int) -> StateFold
    decreases n,
{
    if n <= 0 {
        StateFold { map: Seq::empty(), diags: Seq::empty() }
    } else {
        let st = state_fold(q, comp, n - 1);
        let f = comp.state.fields@[n - 1];
        if has_key(st.map, f.name@) {
            StateFold {
                map: st.map,
                diags: st.diags.push(plain_error("HNK2006"@, defined_twice_message(q, "state field"@, f.name@))),
            }
        } else {
            StateFold { map: sorted_insert(st.map, f.name@, (n - 1) as usize), diags: st.diags }
        }
    }
}

/// A resolved state field built from the `k`-th state field of `q`.
pub open spec fn state_field_built(s: NormalizedStateField, q: Seq<char>, comp: Component, k: usize) -> bool {
    &&& (k as int) < comp.state.fields@.len()
    &&& s.component_name@ == q
    &&& s.name == comp.state.fields@[k as int].name
    &&& s.field_type == comp.state.fields@[k as int].field_type
    &&& s.doc == comp.state.fields@[k as int].doc
}

/// Resolved state fields follow the fold one for one.
pub open spec fn state_match(r: Seq<(Seq<char>, NormalizedStateField)>, m: Seq<(Seq<char>, usize)>, q: Seq<char>, comp: Component) -> bool {
    &&& r.len() == m.len()
    &&& forall|i: int| 0 <= i < r.len() ==> (#[trigger] r[i]).0 == m[i].0 && state_field_built(r[i].1, q, comp, m[i].1)
}

fn build_state_fields(q: &String, comp: &Component, diagnostics: &mut Vec<Diagnostic>) -> (r: NameMap<NormalizedStateField>)
    ensures
        state_match(r@, state_fold(q@, *comp, comp.state.fields@.len() as int).map, q@, *comp),
        dm(final(diagnostics)@) == dm(old(diagnostics)@) + state_fold(q@, *comp, comp.state.fields@.len() as int).diags,
{
    let ghost start = dm(diagnostics@);
    let mut out: NameMap<NormalizedStateField> = NameMap::new();
    let mut k: usize = 0;
    while k < comp.state.fields.len()
        invariant
            k <= comp.state.fields@.len(),
            state_match(out@, state_fold(q@, *comp, k as int).map, q@, *comp),
            dm(diagnostics@) == start + state_fold(q@, *comp, k as int).diags,
        decreases comp.state.fields@.len() - k,
    {
        let ghost st = state_fold(q@, *comp, k as int);
        let f = &comp.state.fields[k];
        proof {
            lemma_same_keys_has_key(out@, st.map, f.name@);
        }
        if out.contains_key(f.name.as_str()) {
            push_diag(diagnostics, defined_twice("HNK2006", q.as_str(), "state field", f.name.as_str()));
            assert(dm(diagnostics@) =~= start + state_fold(q@, *comp, k + 1).diags);
        } else {
            let nf = NormalizedStateField {
                component_name: q.clone(),
                name: f.name.clone(),
                field_type: f.field_type.clone(),
                doc: f.doc.clone(),
            };
            let ghost rel = |x: NormalizedStateField, y: usize| state_field_built(x, q@, *comp, y);
            proof {
                lemma_insert_related(out@, st.map, f.name@, nf, k, rel);
            }
            out.insert(f.name.clone(), nf);
        }
        k = k + 1;
    }
    out
}

// ---------------------------------------------------------------------------
// Building components: transitions.

/// The resolved names of the first `n` emitted events, and the diagnostics
/// for those that do not resolve (which are dropped).
pub open spec fn emits_fold(package: Seq<char>, emits: Seq<String>, event_keys: Seq<Seq<char>>, n: int) -> (Seq<Seq<char>>, Seq<DiagnosticModel>)
    decreases n,
{
    if n <= 0 {
        (Seq::empty(), Seq::empty())
    } else {
        let (names, diags) = emits_fold(package, emits, event_keys, n - 1);
        let (res, ds) = spec_resolve(package, emits[n - 1]@, event_keys, "event"@, "emitted event"@);
        match res {
            Some(e) => (names.push(e), diags + ds),
            None => (names, diags + ds),
        }
    }
}

fn resolve_emits(package: &str, emits: &Vec<String>, event_keys: &Vec<String>, diagnostics: &mut Vec<Diagnostic>) -> (r: Vec<String>)
    ensures
        views(r@) == emits_fold(package@, emits@, views(event_keys@), emits@.len() as int).0,
        dm(final(diagnostics)@) == dm(old(diagnostics)@) + emits_fold(package@, emits@, views(event_keys@), emits@.len() as int).1,
{
    let ghost start = dm(diagnostics@);
    let ghost keys = views(event_keys@);
    let mut out: Vec<String> = Vec::new();
    let mut i: usize = 0;
    while i < emits.len()
        invariant
            i <= emits@.len(),
            keys == views(event_keys@),
            views(out@) == emits_fold(package@, emits@, keys, i as int).0,
            dm(diagnostics@) == start + emits_fold(package@, emits@, keys, i as int).1,
        decreases emits@.len() - i,
    {
        let ghost old_out = out@;
        let resolved = resolve_event_name(package, emits[i].as_str(), event_keys, "emitted event", diagnostics);
        match resolved {
            Some(e) => {
                out.push(e);
                assert(views(out@) =~= views(old_out).push(e@));
            },
            None => {},
        }
        assert(dm(diagnostics@) =~= start + emits_fold(package@, emits@, keys, i + 1).1);
        i = i + 1;
    }
    out
}

/// The transitions recorded so far (name to transition index, resolved input
/// event and resolved emitted events) and the diagnostics raised.
pub struct TransitionsFold {
    pub map: Seq<(Seq<char>, (usize, Seq<char>, Seq<Seq<char>>))>,
    pub diags: Seq<DiagnosticModel>,
}

/// One transition: reported when its name is taken; otherwise its input
/// event is resolved, and only when that succeeds are its emitted events
/// resolved and the transition recorded.
pub open spec fn transitions_step(st: TransitionsFold, package: Seq<char>, q: Seq<char>, comp: Component, event_keys: Seq<Seq<char>>, k: int) -> TransitionsFold {
    let t = comp.transitions@[k];
    if has_key(st.map, t.name@) {
        TransitionsFold {
            map: st.map,
            diags: st.diags.push(plain_error("HNK2007"@, defined_twice_message(q, "transition"@, t.name@))),
        }
    } else {
        let (res, ds) = spec_resolve(package, t.on@, event_keys, "event"@, "transition input event"@);
        match res {
            Some(on) => {
                let (emits, eds) = emits_fold(package, t.emits@, event_keys, t.emits@.len() as int);
                TransitionsFold { map: sorted_insert(st.map, t.name@, (k as usize, on, emits)), diags: st.diags + ds + eds }
            },
            None => TransitionsFold { map: st.map, diags: st.diags + ds },
        }
    }
}

/// The fold after the first `n` transitions.
pub open spec fn transitions_fold(package: Seq<char>, q: Seq<char>, comp: Component, event_keys: Seq<Seq<char>>, n: int) -> TransitionsFold
    decreases n,
{
    if n <= 0 {
        TransitionsFold { map: Seq::empty(), diags: Seq::empty() }
    } else {
        transitions_step(transitions_fold(package, q, comp, event_keys, n - 1), package, q, comp, event_keys, n - 1)
    }
}

/// A resolved transition built from the `k`-th transition of `q`.
pub open spec fn transition_built(t: NormalizedTransition, q: Seq<char>, comp: Component, k: usize, on: Seq<char>, emits: Seq<Seq<char>>) -> bool {
    &&& (k as int) < comp.transitions@.len()
    &&& t.component_name@ == q
    &&& t.name == comp.transitions@[k as int].name
    &&& t.on@ == on
    &&& views(t.emits@) == emits
    &&& t.reads@ == comp.transitions@[k as int].reads@
    &&& t.writes@ == comp.transitions@[k as int].writes@
    &&& items_model(t.requires@) == items_model(comp.transitions@[k as int].requires@)
    &&& items_model(t.ensures@) == items_model(comp.transitions@[k as int].ensures@)
    &&& t.doc == comp.transitions@[k as int].doc
}

/// Resolved transitions follow the fold one for one.
pub open spec fn transitions_match(
    r: Seq<(Seq<char>, NormalizedTransition)>,
    m: Seq<(Seq<char>, (usize, Seq<char>, Seq<Seq<char>>))>,
    q: Seq<char>,
    comp: Component,
) -> bool {
    &&& r.len() == m.len()
    &&& forall|i: int| 0 <= i < r.len() ==> (#[trigger] r[i]).0 == m[i].0 && transition_built(r[i].1, q, comp, m[i].1.0, m[i].1.1, m[i].1.2)
}

fn build_transitions(
    q: &String,
    package: &str,
    comp: &Component,
    event_keys: &Vec<String>,
    diagnostics: &mut Vec<Diagnostic>,
) -> (r: NameMap<NormalizedTransition>)
    ensures
        transitions_match(r@, transitions_fold(package@, q@, *comp, views(event_keys@), comp.transitions@.len() as int).map, q@, *comp),
        dm(final(diagnostics)@) == dm(old(diagnostics)@) + transitions_fold(package@, q@, *comp, views(event_keys@), comp.transitions@.len() as int).diags,
{
    let ghost start = dm(diagnostics@);
    let ghost keys = views(event_keys@);
    let mut out: NameMap<NormalizedTransition> = NameMap::new();
    let mut k: usize = 0;
    while k < comp.transitions.len()
        invariant
            k <= comp.transitions@.len(),
            keys == views(event_keys@),
            transitions_match(out@, transitions_fold(package@, q@, *comp, keys, k as int).map, q@, *comp),
            dm(diagnostics@) == start + transitions_fold(package@, q@, *comp, keys, k as int).diags,
        decreases comp.transitions@.len() - k,
    {
        let ghost st = transitions_fold(package@, q@, *comp, keys, k as int);
        let t = &comp.transitions[k];
        proof {
            lemma_same_keys_has_key(out@, st.map, t.name@);
        }
        if out.contains_key(t.name.as_str()) {
            push_diag(diagnostics, defined_twice("HNK2007", q.as_str(), "transition", t.name.as_str()));
            assert(dm(diagnostics@) =~= start + transitions_fold(package@, q@, *comp, keys, k + 1).diags);
        } else {
            let resolved = resolve_event_name(package, t.on.as_str(), event_keys, "transition input event", diagnostics);
            match resolved {
                Some(on) => {
                    let emits = resolve_emits(package, &t.emits, event_keys, diagnostics);
                    let nt = NormalizedTransition {
                        component_name: q.clone(),
                        name: t.name.clone(),
                        on,
                        emits,
                        reads: t.reads.clone(),
                        writes: t.writes.clone(),
                        requires: clone_values(&t.requires),
                        ensures: clone_values(&t.ensures),
                        doc: t.doc.clone(),
                    };
                    let ghost rel = |x: NormalizedTransition, y: (usize, Seq<char>, Seq<Seq<char>>)| transition_built(x, q@, *comp, y.0, y.1, y.2);
                    proof {
                        lemma_insert_related(out@, st.map, t.name@, nt, (k, nt.on@, views(nt.emits@)), rel);
                    }
                    out.insert(t.name.clone(), nt);
                },
                None => {},
            }
            assert(dm(diagnostics@) =~= start + transitions_fold(package@, q@, *comp, keys, k + 1).diags);
        }
        k = k + 1;
    }
    out
}

} // verus!

verus! {

// ---------------------------------------------------------------------------
// Building components.

/// The persistence of a resolved component copies the declared one.
pub open spec fn persistence_built(p: Option<NormalizedPersistence>, d: Option<crate::ast::Persistence>) -> bool {
    match (p, d) {
        (Some(x), Some(y)) => x.durable@ == y.durable@ && x.doc == y.doc,
        (None, None) => true,
        _ => false,
    }
}

/// The diagnostics raised while building one component: instances, ports,
/// state fields, then transitions.
pub open spec fn component_diags(package: Seq<char>, q: Seq<char>, comp: Component, event_keys: Seq<Seq<char>>, comp_keys: Seq<Seq<char>>) -> Seq<DiagnosticModel> {
    uses_fold(package, q, comp, comp_keys, comp.uses@.len() as int).diags
        + ports_fold(package, q, comp, event_keys, comp.ports@.len() as int).diags
        + state_fold(q, comp, comp.state.fields@.len() as int).diags
        + transitions_fold(package, q, comp, event_keys, comp.transitions@.len() as int).diags
}

/// A resolved component built from the declaration `comp` of `file`, under
/// the qualified name `q`.
pub open spec fn component_built(
    c: NormalizedComponent,
    q: Seq<char>,
    file: SourceFile,
    comp: Component,
    event_keys: Seq<Seq<char>>,
    comp_keys: Seq<Seq<char>>,
) -> bool {
    let package = file.package@;
    let pf = ports_fold(package, q, comp, event_keys, comp.ports@.len() as int);
    &&& c.package@ == package
    &&& c.name == comp.name
    &&& c.qualified_name@ == q
    &&& c.source_path@ == file.path@
    &&& uses_match(c.uses@, uses_fold(package, q, comp, comp_keys, comp.uses@.len() as int).map, comp)
    &&& ports_match(c.ports@, pf.map, q, comp)
    &&& state_match(c.state_fields@, state_fold(q, comp, comp.state.fields@.len() as int).map, q, comp)
    &&& transitions_match(c.transitions@, transitions_fold(package, q, comp, event_keys, comp.transitions@.len() as int).map, q, comp)
    &&& persistence_built(c.persistence, comp.persistence)
    &&& items_model(c.assumptions@) == items_model(comp.assumptions@)
    &&& c.doc == comp.doc
    &&& views(c.inbound_events@) == keys_of(pf.inbound)
    &&& views(c.outbound_events@) == keys_of(pf.outbound)
}

fn build_component(
    q: &String,
    file: &SourceFile,
    comp: &Component,
    event_keys: &Vec<String>,
    comp_keys: &Vec<String>,
    diagnostics: &mut Vec<Diagnostic>,
) -> (r: NormalizedComponent)
    ensures
        component_built(r, q@, *file, *comp, views(event_keys@), views(comp_keys@)),
        dm(final(diagnostics)@) == dm(old(diagnostics)@) + component_diags(file.package@, q@, *comp, views(event_keys@), views(comp_keys@)),
{
    let ghost start = dm(diagnostics@);
    let uses = build_uses(q, file.package, comp, comp_keys, diagnostics);
    let (ports, inbound, outbound) = build_ports(q, file.package, comp, event_keys, diagnostics);
    let state_fields = build_state_fields(q, comp, diagnostics);
    let transitions = build_transitions(q, file.package, comp, event_keys, diagnostics);
    assert(dm(diagnostics@) =~= start + component_diags(file.package@, q@, *comp, views(event_keys@), views(comp_keys@)));
    let persistence = match &comp.persistence {
        Some(p) => Some(NormalizedPersistence { durable: p.durable.clone(), doc: p.doc.clone() }),
        None => None,
    };
    NormalizedComponent {
        package: file.package.to_owned(),
        name: comp.name.clone(),
        qualified_name: q.clone(),
        source_path: file.path.to_owned(),
        uses,
        ports,
        state_fields,
        transitions,
        persistence,
        assumptions: clone_values(&comp.assumptions),
        doc: comp.doc.clone(),
        inbound_events: set_names(&inbound),
        outbound_events: set_names(&outbound),
    }
}

/// The component declaration behind a recorded entry.
pub open spec fn decl_component(files: Seq<SourceFile>, d: (usize, usize)) -> Component {
    files[d.0 as int].spec.components@[d.1 as int]
}

/// The diagnostics raised while building the first `n` components.
pub open spec fn components_diags(
    decls: Seq<(Seq<char>, (usize, usize))>,
    files: Seq<SourceFile>,
    event_keys: Seq<Seq<char>>,
    comp_keys: Seq<Seq<char>>,
    n: int,
) -> Seq<DiagnosticModel>
    decreases n,
{
    if n <= 0 {
        Seq::empty()
    } else {
        components_diags(decls, files, event_keys, comp_keys, n - 1) + component_diags(
            files[decls[n - 1].1.0 as int].package@,
            decls[n - 1].0,
            decl_component(files, decls[n - 1].1),
            event_keys,
            comp_keys,
        )
    }
}

/// The resolved components follow the component declarations one for one.
pub open spec fn components_built(
    r: Seq<(Seq<char>, NormalizedComponent)>,
    decls: Seq<(Seq<char>, (usize, usize))>,
    files: Seq<SourceFile>,
    event_keys: Seq<Seq<char>>,
    comp_keys: Seq<Seq<char>>,
) -> bool {
    &&& r.len() == decls.len()
    &&& forall|i: int| #![trigger r[i]]
        0 <= i < r.len() ==> r[i].0 == decls[i].0 && component_built(
            r[i].1,
            decls[i].0,
            files[decls[i].1.0 as int],
            decl_component(files, decls[i].1),
            event_keys,
            comp_keys,
        )
}

/// The resolved components, one per declaration, under the same names.
pub fn build_components(
    component_decls: &NameMap<(usize, usize)>,
    event_keys: &Vec<String>,
    comp_keys: &Vec<String>,
    files: &Vec<SourceFile>,
    diagnostics: &mut Vec<Diagnostic>,
) -> (r: NameMap<NormalizedComponent>)
    requires
        decls_valid(component_decls@, files@, false),
    ensures
        components_built(r@, component_decls@, files@, views(event_keys@), views(comp_keys@)),
        dm(final(diagnostics)@) == dm(old(diagnostics)@) + components_diags(
            component_decls@,
            files@,
            views(event_keys@),
            views(comp_keys@),
            component_decls@.len() as int,
        ),
{
    let ghost start = dm(diagnostics@);
    let mut out: NameMap<NormalizedComponent> = NameMap::new();
    let n = component_decls.len();
    let mut i: usize = 0;
    while i < n
        invariant
            n == component_decls@.len(),
            keys_sorted(component_decls@),
            decls_valid(component_decls@, files@, false),
            i <= n,
            out@.len() == i,
            forall|j: int| #![trigger out@[j]]
                0 <= j < i ==> out@[j].0 == component_decls@[j].0 && component_built(
                    out@[j].1,
                    component_decls@[j].0,
                    files@[component_decls@[j].1.0 as int],
                    decl_component(files@, component_decls@[j].1),
                    views(event_keys@),
                    views(comp_keys@),
                ),
            dm(diagnostics@) == start + components_diags(component_decls@, files@, views(event_keys@), views(comp_keys@), i as int),
        decreases n - i,
    {
        let (q, idx) = component_decls.entry(i);
        let (fi, ci) = *idx;
        let file = &files[fi];
        let c = build_component(q, file, &file.spec.components[ci], event_keys, comp_keys, diagnostics);
        proof {
            assert forall|j: int| 0 <= j < out@.len() implies crate::text::str_lt(#[trigger] out@[j].0, q@) by {
                assert(out@[j].0 == component_decls@[j].0);
            }
            lemma_sorted_insert_append(out@, q@, c);
        }
        out.insert(q.clone(), c);
        assert(dm(diagnostics@) =~= start + components_diags(component_decls@, files@, views(event_keys@), views(comp_keys@), i + 1));
        i = i + 1;
    }
    out
}

/// The keys of a map, in order.
pub fn map_keys<V>(m: &NameMap<V>) -> (r: Vec<String>)
    ensures
        views(r@) == keys_of(m@),
{
    let mut r: Vec<String> = Vec::new();
    let n = m.len();
    let mut i: usize = 0;
    while i < n
        invariant
            n == m@.len(),
            i <= n,
            views(r@) == keys_of(m@).take(i as int),
        decreases n - i,
    {
        let ghost old_r = r@;
        let key = m.key_at(i).clone();
        r.push(key);
        assert(r@ == old_r.push(key));
        assert(views(r@) =~= views(old_r).push(key@));
        assert(keys_of(m@).take(i + 1) =~= keys_of(m@).take(i as int).push(m@[i as int].0));
        i = i + 1;
    }
    assert(keys_of(m@).take(n as int) =~= keys_of(m@));
    r
}

} // verus!

verus! {

// ---------------------------------------------------------------------------
// Building connections.

/// The resolved names of a connection.
pub struct ConnModel {
    pub within: Seq<char>,
    pub from_target: Seq<char>,
    pub from_component: Seq<char>,
    pub from_port: Seq<char>,
    pub to_target: Seq<char>,
    pub to_component: Seq<char>,
    pub to_port: Seq<char>,
}

/// How an endpoint target resolves inside the enclosing component: `self`
/// is the enclosing component, anything else must be one of its instances
/// whose component is defined.
pub open spec fn target_resolution(
    within: NormalizedComponent,
    comps: Seq<(Seq<char>, NormalizedComponent)>,
    target: Seq<char>,
    side: Seq<char>,
) -> (Option<(Seq<char>, NormalizedComponent)>, Seq<DiagnosticModel>) {
    if target == "self"@ {
        (Some((within.qualified_name@, within)), Seq::empty())
    } else {
        match lookup(within.uses@, target) {
            None => (
                None,
                seq![plain_error("HNK2016"@, "Connection `"@ + side + "` endpoint references undeclared instance `"@ + target
                    + "` within component `"@ + within.qualified_name@ + "`."@)],
            ),
            Some(u) => match lookup(comps, u.component@) {
                None => (
                    None,
                    seq![plain_error("HNK2017"@, "Connection `"@ + side + "` endpoint references instance `"@ + target
                        + "` whose component `"@ + u.component@ + "` is undefined."@)],
                ),
                Some(m) => (Some((u.component@, m)), Seq::empty()),
            },
        }
    }
}

/// The message for an undefined port on one side of a connection.
pub open spec fn undefined_port_message(side: Seq<char>, target: Seq<char>, port: Seq<char>, within: Seq<char>) -> Seq<char> {
    "Connection `"@ + side + "` references undefined port `"@ + target + "."@ + port + "` within component `"@ + within + "`."@
}

/// The message for a malformed endpoint.
pub open spec fn endpoint_format_message(side: Seq<char>, endpoint: Seq<char>) -> Seq<char> {
    "Connection `"@ + side + "` endpoint `"@ + endpoint + "` must use `self.port` or `instance.port` format."@
}

/// How one declared connection of a file resolves: the resolved names when
/// every step succeeds, and the diagnostics raised. Resolution stops at the
/// first failing step.
pub open spec fn connection_step(
    package: Seq<char>,
    conn: crate::ast::Connection,
    comps: Seq<(Seq<char>, NormalizedComponent)>,
    comp_keys: Seq<Seq<char>>,
) -> (Option<ConnModel>, Seq<DiagnosticModel>) {
    let (w, ds) = spec_resolve(package, conn.within@, comp_keys, "component"@, "enclosing component"@);
    match w {
        None => (None, ds),
        Some(wn) => match lookup(comps, wn) {
            None => (
                None,
                ds.push(plain_error("HNK2011"@, "Connection references undefined enclosing component `"@ + conn.within@
                    + "` in `within`."@)),
            ),
            Some(wc) => match spec_parse_endpoint(conn.from@) {
                None => (None, ds.push(plain_error("HNK2012"@, endpoint_format_message("from"@, conn.from@)))),
                Some((ft, fp)) => match spec_parse_endpoint(conn.to@) {
                    None => (None, ds.push(plain_error("HNK2013"@, endpoint_format_message("to"@, conn.to@)))),
                    Some((tt, tp)) => {
                        let (fr, fds) = target_resolution(wc, comps, ft, "from"@);
                        match fr {
                            None => (None, ds + fds),
                            Some((fcn, fcm)) => {
                                let (tr, tds) = target_resolution(wc, comps, tt, "to"@);
                                match tr {
                                    None => (None, ds + fds + tds),
                                    Some((tcn, tcm)) => if !has_key(fcm.ports@, fp) {
                                        (
                                            None,
                                            (ds + fds + tds).push(plain_error("HNK2014"@, undefined_port_message("from"@, ft, fp, wc.qualified_name@))),
                                        )
                                    } else if !has_key(tcm.ports@, tp) {
                                        (
                                            None,
                                            (ds + fds + tds).push(plain_error("HNK2015"@, undefined_port_message("to"@, tt, tp, wc.qualified_name@))),
                                        )
                                    } else {
                                        (
                                            Some(ConnModel {
                                                within: wn,
                                                from_target: ft,
                                                from_component: fcn,
                                                from_port: fp,
                                                to_target: tt,
                                                to_component: tcn,
                                                to_port: tp,
                                            }),
                                            ds + fds + tds,
                                        )
                                    },
                                }
                            },
                        }
                    },
                },
            },
        },
    }
}

/// A resolved connection built from `conn` with the resolved names `m`.
pub open spec fn connection_built(nc: NormalizedConnection, m: ConnModel, conn: crate::ast::Connection) -> bool {
    &&& nc.within_component@ == m.within
    &&& nc.from_target@ == m.from_target
    &&& nc.from_component@ == m.from_component
    &&& nc.from_port@ == m.from_port
    &&& nc.to_target@ == m.to_target
    &&& nc.to_component@ == m.to_component
    &&& nc.to_port@ == m.to_port
    &&& nc.locality == conn.locality
    &&& nc.contracts@ == conn.contracts@
    &&& nc.doc == conn.doc
}

/// The connections resolved so far, each with its file and connection
/// index, and the diagnostics raised.
pub struct ConnFold {
    pub built: Seq<(ConnModel, (usize, usize))>,
    pub diags: Seq<DiagnosticModel>,
}

/// One connection of file `fi` folded in.
pub open spec fn conn_fold_step(st: ConnFold, files: Seq<SourceFile>, fi: int, ci: int, comps: Seq<(Seq<char>, NormalizedComponent)>, comp_keys: Seq<Seq<char>>) -> ConnFold {
    let (m, ds) = connection_step(files[fi].package@, files[fi].spec.connections@[ci], comps, comp_keys);
    match m {
        Some(x) => ConnFold { built: st.built.push((x, (fi as usize, ci as usize))), diags: st.diags + ds },
        None => ConnFold { built: st.built, diags: st.diags + ds },
    }
}

/// The fold after the first `m` connections of file `fi`.
pub open spec fn conns_in_file(st: ConnFold, files: Seq<SourceFile>, fi: int, m: int, comps: Seq<(Seq<char>, NormalizedComponent)>, comp_keys: Seq<Seq<char>>) -> ConnFold
    decreases m,
{
    if m <= 0 {
        st
    } else {
        conn_fold_step(conns_in_file(st, files, fi, m - 1, comps, comp_keys), files, fi, m - 1, comps, comp_keys)
    }
}

/// The fold after the first `n` files.
pub open spec fn conns_upto(files: Seq<SourceFile>, n: int, comps: Seq<(Seq<char>, NormalizedComponent)>, comp_keys: Seq<Seq<char>>) -> ConnFold
    decreases n,
{
    if n <= 0 {
        ConnFold { built: Seq::empty(), diags: Seq::empty() }
    } else {
        conns_in_file(
            conns_upto(files, n - 1, comps, comp_keys),
            files,
            n - 1,
            files[n - 1].spec.connections@.len() as int,
            comps,
            comp_keys,
        )
    }
}

/// A resolved connection built from the connection that `b` points at.
pub open spec fn conn_entry_ok(c: NormalizedConnection, b: (ConnModel, (usize, usize)), files: Seq<SourceFile>) -> bool {
    let fi = b.1.0 as int;
    let ci = b.1.1 as int;
    &&& 0 <= fi < files.len()
    &&& 0 <= ci < files[fi].spec.connections@.len()
    &&& connection_built(c, b.0, files[fi].spec.connections@[ci])
}

/// The resolved connections follow the fold one for one.
pub open spec fn connections_match(r: Seq<NormalizedConnection>, built: Seq<(ConnModel, (usize, usize))>, files: Seq<SourceFile>) -> bool {
    &&& r.len() == built.len()
    &&& forall|i: int| 0 <= i < r.len() ==> conn_entry_ok(#[trigger] r[i], built[i], files)
}

fn resolve_target<'a>(
    within: &'a NormalizedComponent,
    components: &'a NameMap<NormalizedComponent>,
    target: &String,
    side: &str,
    diagnostics: &mut Vec<Diagnostic>,
) -> (r: Option<(String, &'a NormalizedComponent)>)
    ensures
        ({
            let (res, ds) = target_resolution(*within, components@, target@, side@);
            &&& (r matches Some((n, c)) ==> res == Some((n@, *c)))
            &&& (r is None ==> res is None)
            &&& dm(final(diagnostics)@) == dm(old(diagnostics)@) + ds
        }),
{
    let ghost start = dm(diagnostics@);
    if str_equal(target.as_str(), "self") {
        assert(dm(diagnostics@) =~= start + Seq::<DiagnosticModel>::empty());
        return Some((within.qualified_name.clone(), within));
    }
    match within.uses.get(target.as_str()) {
        None => {
            let mut m = String::new();
            m.append("Connection `");
            m.append(side);
            m.append("` endpoint references undeclared instance `");
            m.append(target.as_str());
            m.append("` within component `");
            m.append(within.qualified_name.as_str());
            m.append("`.");
            let d = Diagnostic::error("HNK2016", m);
            push_diag(diagnostics, d);
            assert(dm(diagnostics@) =~= start + seq![d@]);
            None
        },
        Some(u) => match components.get(u.component.as_str()) {
            None => {
                let mut m = String::new();
                m.append("Connection `");
                m.append(side);
                m.append("` endpoint references instance `");
                m.append(target.as_str());
                m.append("` whose component `");
                m.append(u.component.as_str());
                m.append("` is undefined.");
                let d = Diagnostic::error("HNK2017", m);
                push_diag(diagnostics, d);
                assert(dm(diagnostics@) =~= start + seq![d@]);
                None
            },
            Some(model) => {
                assert(dm(diagnostics@) =~= start + Seq::<DiagnosticModel>::empty());
                Some((u.component.clone(), model))
            },
        },
    }
}

fn endpoint_format(code: &str, side: &str, endpoint: &str) -> (r: Diagnostic)
    ensures
        r@ == plain_error(code@, endpoint_format_message(side@, endpoint@)),
{
    let mut m = String::new();
    m.append("Connection `");
    m.append(side);
    m.append("` endpoint `");
    m.append(endpoint);
    m.append("` must use `self.port` or `instance.port` format.");
    Diagnostic::error(code, m)
}

fn undefined_port(code: &str, side: &str, target: &str, port: &str, within: &str) -> (r: Diagnostic)
    ensures
        r@ == plain_error(code@, undefined_port_message(side@, target@, port@, within@)),
{
    let mut m = String::new();
    m.append("Connection `");
    m.append(side);
    m.append("` references undefined port `");
    m.append(target);
    m.append(".");
    m.append(port);
    m.append("` within component `");
    m.append(within);
    m.append("`.");
    Diagnostic::error(code, m)
}

fn build_connection(
    package: &str,
    conn: &crate::ast::Connection,
    components: &NameMap<NormalizedComponent>,
    comp_keys: &Vec<String>,
    diagnostics: &mut Vec<Diagnostic>,
) -> (r: Option<NormalizedConnection>)
    ensures
        ({
            let (m, ds) = connection_step(package@, *conn, components@, views(comp_keys@));
            &&& (r matches Some(nc) ==> m matches Some(x) && connection_built(nc, x, *conn))
            &&& (r is None ==> m is None)
            &&& dm(final(diagnostics)@) == dm(old(diagnostics)@) + ds
        }),
{
    let ghost start = dm(diagnostics@);
    let within_name = match resolve_component_name(package, conn.within.as_str(), comp_keys, "enclosing component", diagnostics) {
        Some(w) => w,
        None => return None,
    };
    let ghost after_within = dm(diagnostics@);
    let within = match components.get(within_name.as_str()) {
        Some(c) => c,
        None => {
            let mut m = String::new();
            m.append("Connection references undefined enclosing component `");
            m.append(conn.within.as_str());
            m.append("` in `within`.");
            push_diag(diagnostics, Diagnostic::error("HNK2011", m));
            return None;
        },
    };
    let (from_target, from_port) = match parse_endpoint(conn.from.as_str()) {
        Some(e) => e,
        None => {
            push_diag(diagnostics, endpoint_format("HNK2012", "from", conn.from.as_str()));
            return None;
        },
    };
    let (to_target, to_port) = match parse_endpoint(conn.to.as_str()) {
        Some(e) => e,
        None => {
            push_diag(diagnostics, endpoint_format("HNK2013", "to", conn.to.as_str()));
            return None;
        },
    };
    let (from_component, from_model) = match resolve_target(within, components, &from_target, "from", diagnostics) {
        Some(x) => x,
        None => {
            assert(dm(diagnostics@) =~= start + connection_step(package@, *conn, components@, views(comp_keys@)).1);
            return None;
        },
    };
    let (to_component, to_model) = match resolve_target(within, components, &to_target, "to", diagnostics) {
        Some(x) => x,
        None => {
            assert(dm(diagnostics@) =~= start + connection_step(package@, *conn, components@, views(comp_keys@)).1);
            return None;
        },
    };
    if !from_model.ports.contains_key(from_port.as_str()) {
        push_diag(diagnostics, undefined_port("HNK2014", "from", from_target.as_str(), from_port.as_str(), within.qualified_name.as_str()));
        assert(dm(diagnostics@) =~= start + connection_step(package@, *conn, components@, views(comp_keys@)).1);
        return None;
    }
    if !to_model.ports.contains_key(to_port.as_str()) {
        push_diag(diagnostics, undefined_port("HNK2015", "to", to_target.as_str(), to_port.as_str(), within.qualified_name.as_str()));
        assert(dm(diagnostics@) =~= start + connection_step(package@, *conn, components@, views(comp_keys@)).1);
        return None;
    }
    assert(dm(diagnostics@) =~= start + connection_step(package@, *conn, components@, views(comp_keys@)).1);
    Some(NormalizedConnection {
        within_component: within_name,
        from_target,
        from_component,
        from_port,
        to_target,
        to_component,
        to_port,
        locality: conn.locality,
        contracts: conn.contracts.clone(),
        doc: conn.doc.clone(),
    })
}

/// The resolved connections of every file, in file order; connections that
/// do not resolve are reported and left out.
pub fn build_connections(
    files: &Vec<SourceFile>,
    components: &NameMap<NormalizedComponent>,
    comp_keys: &Vec<String>,
    diagnostics: &mut Vec<Diagnostic>,
) -> (r: Vec<NormalizedConnection>)
    ensures
        connections_match(r@, conns_upto(files@, files@.len() as int, components@, views(comp_keys@)).built, files@),
        dm(final(diagnostics)@) == dm(old(diagnostics)@) + conns_upto(files@, files@.len() as int, components@, views(comp_keys@)).diags,
{
    let ghost start = dm(diagnostics@);
    let ghost ck = views(comp_keys@);
    let mut out: Vec<NormalizedConnection> = Vec::new();
    let mut fi: usize = 0;
    while fi < files.len()
        invariant
            fi <= files@.len(),
            ck == views(comp_keys@),
            connections_match(out@, conns_upto(files@, fi as int, components@, ck).built, files@),
            dm(diagnostics@) == start + conns_upto(files@, fi as int, components@, ck).diags,
        decreases files@.len() - fi,
    {
        let file = &files[fi];
        let ghost base = conns_upto(files@, fi as int, components@, ck);
        let mut ci: usize = 0;
        while ci < file.spec.connections.len()
            invariant
                fi < files@.len(),
                *file == files@[fi as int],
                ck == views(comp_keys@),
                ci <= file.spec.connections@.len(),
                base == conns_upto(files@, fi as int, components@, ck),
                connections_match(out@, conns_in_file(base, files@, fi as int, ci as int, components@, ck).built, files@),
                dm(diagnostics@) == start + conns_in_file(base, files@, fi as int, ci as int, components@, ck).diags,
            decreases file.spec.connections@.len() - ci,
        {
            let ghost prev = conns_in_file(base, files@, fi as int, ci as int, components@, ck);
            let ghost next = conns_in_file(base, files@, fi as int, ci + 1, components@, ck);
            let ghost old_out = out@;
            let built = build_connection(file.package, &file.spec.connections[ci], components, comp_keys, diagnostics);
            match built {
                Some(nc) => {
                    out.push(nc);
                    proof {
                        let m = connection_step(files@[fi as int].package@, files@[fi as int].spec.connections@[ci as int], components@, ck).0->Some_0;
                        assert(next.built == prev.built.push((m, (fi, ci))));
                        assert forall|i: int| 0 <= i < out@.len() implies conn_entry_ok(#[trigger] out@[i], next.built[i], files@) by {
                            if i < old_out.len() {
                                assert(out@[i] == old_out[i]);
                                assert(next.built[i] == prev.built[i]);
                            } else {
                                assert(i == prev.built.len());
                                assert(next.built[i] == (m, (fi, ci)));
                                assert(connection_built(out@[i], m, files@[fi as int].spec.connections@[ci as int]));
                            }
                        }
                        assert(out@.len() == next.built.len());
                        assert(connections_match(out@, next.built, files@));
                    }
                },
                None => {
                    assert(next.built == prev.built);
                    assert(connections_match(out@, next.built, files@));
                },
            }
            assert(dm(diagnostics@) =~= start + conns_in_file(base, files@, fi as int, ci + 1, components@, ck).diags);
            ci = ci + 1;
        }
        fi = fi + 1;
    }
    out
}

} // verus!

verus! {

// ---------------------------------------------------------------------------
// The whole bundle.

/// The connections among `s` that cross a non-local boundary, in order.
pub open spec fn non_local_of(s: Seq<NormalizedConnection>) -> Seq<NormalizedConnection>
    decreases s.len(),
{
    if s.len() == 0 {
        Seq::empty()
    } else {
        let rest = non_local_of(s.drop_last());
        if s.last().locality == ConnectionLocality::NonLocal { rest.push(s.last()) } else { rest }
    }
}

/// Two lists of connections agree position by position.
pub open spec fn same_connections(a: Seq<NormalizedConnection>, b: Seq<NormalizedConnection>) -> bool {
    &&& a.len() == b.len()
    &&& forall|i: int| 0 <= i < a.len() ==> crate::ir::same_connection(#[trigger] a[i], b[i])
}

/// Every diagnostic that normalization raises for the files, with the entry
/// file at `ei`, given the components it builds: version mismatches,
/// duplicate events, duplicate components, component problems, then
/// connection problems.
pub open spec fn bundle_diags(files: Seq<SourceFile>, ei: int, comps: Seq<(Seq<char>, NormalizedComponent)>) -> Seq<DiagnosticModel> {
    let ed = all_decls(files, true);
    let cd = all_decls(files, false);
    let ek = keys_of(ed.map);
    let ck = keys_of(cd.map);
    version_diags(files, files[ei].spec.version@, files.len() as int) + ed.diags + cd.diags
        + components_diags(cd.map, files, ek, ck, cd.map.len() as int) + conns_upto(files, files.len() as int, comps, ck).diags
}

/// The components that normalization builds for the files.
pub open spec fn components_of(files: Seq<SourceFile>, comps: Seq<(Seq<char>, NormalizedComponent)>) -> bool {
    let ed = all_decls(files, true);
    let cd = all_decls(files, false);
    components_built(comps, cd.map, files, keys_of(ed.map), keys_of(cd.map))
}

/// The message when the entry file is missing from the bundle.
pub open spec fn entry_missing_message() -> Seq<char> {
    "The bundle entry file was not found in the loaded import graph."@
}

/// Everything that a successful normalization of `files` returns.
pub open spec fn normalized_from(n: NormalizedSpec, files: Seq<SourceFile>, ei: int, graph: Seq<(String, Vec<String>)>) -> bool {
    let ed = all_decls(files, true);
    let cd = all_decls(files, false);
    let conns = conns_upto(files, files.len() as int, n.components@, keys_of(cd.map));
    &&& n.version == files[ei].spec.version
    &&& n.entry_package@ == files[ei].package@
    &&& events_built(n.events@, ed.map, files)
    &&& components_of(files, n.components@)
    &&& connections_match(n.connections@, conns.built, files)
    &&& same_connections(n.non_local_connections@, non_local_of(n.connections@))
    &&& n.imports@ == files[ei].spec.imports@
    &&& n.import_graph@.len() == graph.len()
    &&& forall|i: int| 0 <= i < graph.len() ==> (#[trigger] n.import_graph@[i]).0 == graph[i].0 && n.import_graph@[i].1@ == graph[i].1@
}

fn copy_graph(g: &Vec<(String, Vec<String>)>) -> (r: Vec<(String, Vec<String>)>)
    ensures
        r@.len() == g@.len(),
        forall|i: int| 0 <= i < g@.len() ==> (#[trigger] r@[i]).0 == g@[i].0 && r@[i].1@ == g@[i].1@,
{
    let mut r: Vec<(String, Vec<String>)> = Vec::new();
    let mut i: usize = 0;
    while i < g.len()
        invariant
            i <= g@.len(),
            r@.len() == i,
            forall|j: int| 0 <= j < i ==> (#[trigger] r@[j]).0 == g@[j].0 && r@[j].1@ == g@[j].1@,
        decreases g@.len() - i,
    {
        let k = g[i].0.clone();
        let v = g[i].1.clone();
        r.push((k, v));
        i = i + 1;
    }
    r
}

fn select_non_local(conns: &Vec<NormalizedConnection>) -> (r: Vec<NormalizedConnection>)
    ensures
        same_connections(r@, non_local_of(conns@)),
{
    let mut r: Vec<NormalizedConnection> = Vec::new();
    let mut i: usize = 0;
    while i < conns.len()
        invariant
            i <= conns@.len(),
            same_connections(r@, non_local_of(conns@.take(i as int))),
        decreases conns@.len() - i,
    {
        assert(conns@.take(i + 1).drop_last() =~= conns@.take(i as int));
        let ghost old_r = r@;
        if matches!(conns[i].locality, ConnectionLocality::NonLocal) {
            let c = conns[i].copy();
            r.push(c);
            assert forall|j: int| 0 <= j < r@.len() implies crate::ir::same_connection(#[trigger] r@[j], non_local_of(conns@.take(i + 1))[j]) by {
                if j < old_r.len() {
                    assert(r@[j] == old_r[j]);
                }
            }
        }
        i = i + 1;
    }
    assert(conns@.take(conns@.len() as int) =~= conns@);
    r
}

/// Normalizes the files of a bundle whose entry file has path `entry`.
pub fn normalize_files(
    entry: &str,
    files: &Vec<SourceFile>,
    import_graph: &Vec<(String, Vec<String>)>,
) -> (r: Result<NormalizedSpec, DiagnosticSet>)
    ensures
        entry_index(files@, entry@) is None ==> (r matches Err(ds) && ds@ == seq![plain_error("HNK2000"@, entry_missing_message())]),
        entry_index(files@, entry@) matches Some(ei) ==> match r {
            Ok(n) => bundle_diags(files@, ei, n.components@).len() == 0 && normalized_from(n, files@, ei, import_graph@),
            Err(ds) => exists|comps: Seq<(Seq<char>, NormalizedComponent)>| components_of(files@, comps)
                && ds@ == bundle_diags(files@, ei, comps) && ds@.len() > 0,
        },
{
    let ei = match find_entry(files, entry) {
        Some(i) => i,
        None => {
            let d = Diagnostic::error("HNK2000", "The bundle entry file was not found in the loaded import graph.".to_owned());
            return Err(DiagnosticSet::singleton(d));
        },
    };
    let entry_file = &files[ei];
    let mut diagnostics: Vec<Diagnostic> = Vec::new();
    check_versions(files, entry_file.spec.version.as_str(), &mut diagnostics);
    let event_decls = collect_event_decls(files, &mut diagnostics);
    let component_decls = collect_component_decls(files, &mut diagnostics);
    let event_keys = map_keys(&event_decls);
    let comp_keys = map_keys(&component_decls);
    let events = build_events(&event_decls, files);
    let components = build_components(&component_decls, &event_keys, &comp_keys, files, &mut diagnostics);
    let connections = build_connections(files, &components, &comp_keys, &mut diagnostics);
    assert(dm(diagnostics@) =~= bundle_diags(files@, ei as int, components@));
    assert(components_of(files@, components@));
    if diagnostics.len() > 0 {
        return Err(DiagnosticSet::new(diagnostics));
    }
    let non_local_connections = select_non_local(&connections);
    Ok(NormalizedSpec {
        version: entry_file.spec.version.clone(),
        entry_package: entry_file.package.to_owned(),
        events,
        components,
        connections,
        non_local_connections,
        imports: entry_file.spec.imports.clone(),
        import_graph: copy_graph(import_graph),
    })
}

/// The files of a bundle as the normalizer reads them.
pub open spec fn bundle_files(b: crate::bundle::BundleAst, files: Seq<SourceFile>) -> bool {
    &&& files.len() == b.files@.len()
    &&& forall|i: int| #![trigger files[i]]
        0 <= i < files.len() ==> files[i].path@ == b.files@[i].path@ && files[i].package@ == b.files@[i].package@
            && *files[i].spec == b.files@[i].spec
}

/// Normalizes a loaded bundle.
pub fn normalize_bundle(bundle: &crate::bundle::BundleAst) -> (r: Result<NormalizedSpec, DiagnosticSet>)
    ensures
        exists|files: Seq<SourceFile>| #![trigger bundle_files(*bundle, files)] bundle_files(*bundle, files) && {
            &&& entry_index(files, bundle.entry@) is None ==> (r matches Err(ds) && ds@ == seq![plain_error("HNK2000"@, entry_missing_message())])
            &&& entry_index(files, bundle.entry@) matches Some(ei) ==> match r {
                Ok(n) => bundle_diags(files, ei, n.components@).len() == 0 && normalized_from(n, files, ei, bundle.import_graph@),
                Err(ds) => exists|comps: Seq<(Seq<char>, NormalizedComponent)>| components_of(files, comps)
                    && ds@ == bundle_diags(files, ei, comps) && ds@.len() > 0,
            }
        },
{
    let mut files: Vec<SourceFile> = Vec::new();
    let mut i: usize = 0;
    while i < bundle.files.len()
        invariant
            i <= bundle.files@.len(),
            files@.len() == i,
            forall|j: int| #![trigger files@[j]]
                0 <= j < i ==> files@[j].path@ == bundle.files@[j].path@ && files@[j].package@ == bundle.files@[j].package@
                    && *files@[j].spec == bundle.files@[j].spec,
        decreases bundle.files@.len() - i,
    {
        let f = &bundle.files[i];
        files.push(SourceFile { path: f.path.as_str(), package: f.package.as_str(), spec: &f.spec });
        i = i + 1;
    }
    let r = normalize_files(bundle.entry.as_str(), &files, &bundle.import_graph);
    assert(bundle_files(*bundle, files@));
    r
}

/// The single file that `normalize` reads: the specification under the path
/// `<inline>`.
pub open spec fn inline_files(spec: Spec, files: Seq<SourceFile>) -> bool {
    &&& files.len() == 1
    &&& files[0].path@ == "<inline>"@
    &&& files[0].package@ == spec.package@
    &&& *files[0].spec == spec
}

/// What normalizing `spec` gives, read as a bundle of one file: the model
/// when the bundle raises no diagnostic, else the diagnostics.
pub open spec fn normalize_outcome(spec: Spec, r: Result<NormalizedSpec, DiagnosticSet>) -> bool {
    exists|files: Seq<SourceFile>| #![trigger inline_files(spec, files)] inline_files(spec, files) && match r {
        Ok(n) => bundle_diags(files, 0, n.components@).len() == 0 && normalized_from(n, files, 0, Seq::empty()),
        Err(ds) => exists|comps: Seq<(Seq<char>, NormalizedComponent)>| components_of(files, comps)
            && ds@ == bundle_diags(files, 0, comps) && ds@.len() > 0,
    }
}

/// Normalizes a single specification, read as a bundle of one file with
/// path `<inline>`.
pub fn normalize(spec: &Spec) -> (r: Result<NormalizedSpec, DiagnosticSet>)
    ensures
        normalize_outcome(*spec, r),
{
    let files: Vec<SourceFile> = vec![SourceFile { path: "<inline>", package: spec.package.as_str(), spec }];
    let graph: Vec<(String, Vec<String>)> = Vec::new();
    assert(entry_index_from(files@, "<inline>"@, 1) is None);
    assert(entry_index(files@, "<inline>"@) == Some(0int));
    let r = normalize_files("<inline>", &files, &graph);
    assert(inline_files(*spec, files@));
    assert(graph@ =~= Seq::<(String, Vec<String>)>::empty());
    r
}

} // verus!
