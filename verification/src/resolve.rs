//! Name resolution: package-qualified names, endpoint syntax and the
//! resolution of references against the declared names of a bundle.
use vstd::prelude::*;
use crate::diagnostics::{Diagnostic, DiagnosticModel, plain_error};
use crate::text::{chars_of, find_char, find_char_seq, slice_chars, str_equal};

verus! {

/// `package.symbol`.
pub open spec fn qualified(package: Seq<char>, symbol: Seq<char>) -> Seq<char> {
    package + "."@ + symbol
}

/// The fully qualified name of a symbol declared in a package.
pub fn qualify(package: &str, symbol: &str) -> (r: String)
    ensures
        r@ == qualified(package@, symbol@),
{
    let mut r = package.to_owned();
    r.append(".");
    r.append(symbol);
    r
}

/// The part of a name after its last `.` (the whole name when it has none).
pub open spec fn last_segment(s: Seq<char>) -> Seq<char>
    decreases s.len(),
{
    if s.len() == 0 {
        s
    } else if s.last() == '.' {
        Seq::empty()
    } else {
        last_segment(s.drop_last()).push(s.last())
    }
}

/// The names joined with `sep` between consecutive names.
pub open spec fn join(items: Seq<Seq<char>>, sep: Seq<char>) -> Seq<char>
    decreases items.len(),
{
    if items.len() == 0 {
        Seq::empty()
    } else if items.len() == 1 {
        items[0]
    } else {
        join(items.drop_last(), sep) + sep + items.last()
    }
}

/// Joins strings with a separator (`[String]::join`).
pub fn join_strings(items: &[String], sep: &str) -> (r: String)
    ensures
        r@ == join(items@.map_values(|s: String| s@), sep@),
{
    let ghost views = items@.map_values(|s: String| s@);
    let mut r = String::new();
    let mut i: usize = 0;
    while i < items.len()
        invariant
            i <= items@.len(),
            views == items@.map_values(|s: String| s@),
            r@ == join(views.take(i as int), sep@),
        decreases items@.len() - i,
    {
        if i > 0 {
            r.append(sep);
        }
        r.append(items[i].as_str());
        proof {
            assert(views.take(i + 1).drop_last() =~= views.take(i as int));
            if i == 0 {
                assert(views.take(1) =~= seq![views[0]]);
            }
        }
        i = i + 1;
    }
    assert(views.take(items@.len() as int) =~= views);
    r
}

/// The part of `s` after its last `.`.
pub fn last_segment_of(s: &str) -> (r: Vec<char>)
    ensures
        r@ == last_segment(s@),
{
    let cs = chars_of(s);
    let n = cs.len();
    let mut b: usize = n;
    assert(cs@.subrange(0, n as int) =~= cs@);
    assert(s@ + cs@.subrange(n as int, n as int) =~= s@);
    while b > 0 && cs[b - 1] != '.'
        invariant
            cs@ == s@,
            b <= n == cs@.len(),
            last_segment(s@) == last_segment(cs@.subrange(0, b as int)) + cs@.subrange(
                b as int,
                n as int,
            ),
        decreases b,
    {
        proof {
            let pre = cs@.subrange(0, b as int);
            assert(pre.drop_last() =~= cs@.subrange(0, b - 1));
            assert(pre.last() == cs@[b - 1]);
            assert(cs@.subrange(b - 1, n as int) =~= seq![cs@[b - 1]] + cs@.subrange(
                b as int,
                n as int,
            ));
            assert(last_segment(cs@.subrange(0, b - 1)).push(cs@[b - 1]) + cs@.subrange(
                b as int,
                n as int,
            ) =~= last_segment(cs@.subrange(0, b - 1)) + cs@.subrange(b - 1, n as int));
        }
        b = b - 1;
    }
    proof {
        assert(cs@.subrange(0, n as int) =~= cs@);
        assert(cs@.subrange(n as int, n as int) =~= Seq::<char>::empty());
        assert(last_segment(cs@.subrange(0, b as int)) =~= Seq::<char>::empty());
        assert(Seq::<char>::empty() + cs@.subrange(b as int, n as int) =~= cs@.subrange(
            b as int,
            n as int,
        ));
    }
    slice_chars(cs.as_slice(), b, n)
}

/// Whether the sequence holds `x`.
pub open spec fn seq_has(s: Seq<Seq<char>>, x: Seq<char>) -> bool {
    exists|i: int| 0 <= i < s.len() && s[i] == x
}

/// The names among `known` whose last segment is `reference`, in order.
pub open spec fn segment_matches(known: Seq<Seq<char>>, reference: Seq<char>) -> Seq<Seq<char>> {
    known.filter(|c: Seq<char>| last_segment(c) == reference)
}

/// The diagnostic for a reference that names nothing.
pub open spec fn unknown_reference_message(
    kind: Seq<char>,
    reference: Seq<char>,
    context: Seq<char>,
) -> Seq<char> {
    "Unknown "@ + kind + " reference `"@ + reference + "` in "@ + context + "."@
}

/// The diagnostic for an unqualified reference that several packages declare.
pub open spec fn ambiguous_reference_message(
    kind: Seq<char>,
    reference: Seq<char>,
    context: Seq<char>,
    candidates: Seq<Seq<char>>,
) -> Seq<char> {
    "Unqualified "@ + kind + " reference `"@ + reference + "` in "@ + context
        + " is ambiguous across packages. Use one of: "@ + join(candidates, ", "@) + "."@
}

/// How a reference written in `package` resolves against the declared
/// qualified names `known`: the resolved name, and the diagnostics raised.
///
/// A dotted reference must name a declared name exactly. An undotted one
/// resolves to `package.reference` when that is declared; otherwise it is
/// ambiguous when other packages declare that symbol, and unknown when none
/// does.
pub open spec fn spec_resolve(
    package: Seq<char>,
    reference: Seq<char>,
    known: Seq<Seq<char>>,
    kind: Seq<char>,
    context: Seq<char>,
) -> (Option<Seq<char>>, Seq<DiagnosticModel>) {
    if find_char_seq(reference, '.') is Some {
        if seq_has(known, reference) {
            (Some(reference), Seq::empty())
        } else {
            (
                None,
                seq![plain_error("HNK2005"@, unknown_reference_message(kind, reference, context))],
            )
        }
    } else if seq_has(known, qualified(package, reference)) {
        (Some(qualified(package, reference)), Seq::empty())
    } else if segment_matches(known, reference).len() > 0 {
        (
            None,
            seq![
                plain_error(
                    "HNK2005"@,
                    ambiguous_reference_message(
                        kind,
                        reference,
                        context,
                        segment_matches(known, reference),
                    ),
                ),
            ],
        )
    } else {
        (None, seq![plain_error("HNK2005"@, unknown_reference_message(kind, reference, context))])
    }
}

fn contains_name(known: &Vec<String>, name: &str) -> (r: bool)
    ensures
        r == seq_has(known@.map_values(|s: String| s@), name@),
{
    let ghost views = known@.map_values(|s: String| s@);
    let mut i: usize = 0;
    while i < known.len()
        invariant
            i <= known@.len(),
            views == known@.map_values(|s: String| s@),
            forall|j: int| 0 <= j < i ==> views[j] != name@,
        decreases known@.len() - i,
    {
        if str_equal(known[i].as_str(), name) {
            assert(views[i as int] == name@);
            return true;
        }
        i = i + 1;
    }
    false
}

fn unknown_reference(kind: &str, reference: &str, context: &str) -> (r: Diagnostic)
    ensures
        r@ == plain_error("HNK2005"@, unknown_reference_message(kind@, reference@, context@)),
{
    let mut m = String::new();
    m.append("Unknown ");
    m.append(kind);
    m.append(" reference `");
    m.append(reference);
    m.append("` in ");
    m.append(context);
    m.append(".");
    Diagnostic::error("HNK2005", m)
}

/// Resolves `reference`, written in `current_package`, against the declared
/// qualified names `known`; a failure pushes one diagnostic.
pub fn resolve_qualified_name(
    current_package: &str,
    reference: &str,
    known: &Vec<String>,
    kind: &str,
    context: &str,
    diagnostics: &mut Vec<Diagnostic>,
) -> (r: Option<String>)
    ensures
        ({
            let (name, diags) = spec_resolve(
                current_package@,
                reference@,
                known@.map_values(|s: String| s@),
                kind@,
                context@,
            );
            &&& (r matches Some(s) ==> name == Some(s@))
            &&& (r is None ==> name is None)
            &&& final(diagnostics)@.map_values(|d: Diagnostic| d@) == old(diagnostics)@.map_values(
                |d: Diagnostic| d@,
            ) + diags
        }),
{
    let ghost views = known@.map_values(|s: String| s@);
    let ghost old_models = diagnostics@.map_values(|d: Diagnostic| d@);
    let rc = chars_of(reference);
    if find_char(rc.as_slice(), '.').is_some() {
        if contains_name(known, reference) {
            assert(diagnostics@.map_values(|d: Diagnostic| d@) =~= old_models + Seq::<
                DiagnosticModel,
            >::empty());
            return Some(reference.to_owned());
        }
        let d = unknown_reference(kind, reference, context);
        diagnostics.push(d);
        assert(diagnostics@.map_values(|d: Diagnostic| d@) =~= old_models + seq![d@]);
        return None;
    }
    let local_name = qualify(current_package, reference);
    if contains_name(known, local_name.as_str()) {
        assert(diagnostics@.map_values(|d: Diagnostic| d@) =~= old_models + Seq::<
            DiagnosticModel,
        >::empty());
        return Some(local_name);
    }
    let mut matches: Vec<String> = Vec::new();
    let mut i: usize = 0;
    while i < known.len()
        invariant
            i <= known@.len(),
            views == known@.map_values(|s: String| s@),
            matches@.map_values(|s: String| s@) == views.take(i as int).filter(
                |c: Seq<char>| last_segment(c) == reference@,
            ),
        decreases known@.len() - i,
    {
        let seg = last_segment_of(known[i].as_str());
        let is_match = str_equal_chars(seg.as_slice(), reference);
        proof {
            reveal_with_fuel(Seq::filter, 1);
            assert(views.take(i + 1).drop_last() =~= views.take(i as int));
        }
        if is_match {
            let c = known[i].clone();
            matches.push(c);
            assert(matches@.map_values(|s: String| s@) =~= views.take(i as int).filter(
                |c: Seq<char>| last_segment(c) == reference@,
            ).push(views[i as int]));
        }
        i = i + 1;
    }
    assert(views.take(known@.len() as int) =~= views);
    if matches.len() > 0 {
        let mut m = String::new();
        m.append("Unqualified ");
        m.append(kind);
        m.append(" reference `");
        m.append(reference);
        m.append("` in ");
        m.append(context);
        m.append(" is ambiguous across packages. Use one of: ");
        let joined = join_strings(matches.as_slice(), ", ");
        m.append(joined.as_str());
        m.append(".");
        let d = Diagnostic::error("HNK2005", m);
        diagnostics.push(d);
        assert(diagnostics@.map_values(|d: Diagnostic| d@) =~= old_models + seq![d@]);
        return None;
    }
    let d = unknown_reference(kind, reference, context);
    diagnostics.push(d);
    assert(diagnostics@.map_values(|d: Diagnostic| d@) =~= old_models + seq![d@]);
    None
}

fn str_equal_chars(a: &[char], b: &str) -> (r: bool)
    ensures
        r == (a@ == b@),
{
    let y = chars_of(b);
    if a.len() != y.len() {
        return false;
    }
    let mut i: usize = 0;
    while i < a.len()
        invariant
            y@ == b@,
            a@.len() == y@.len(),
            i <= a@.len(),
            forall|j: int| 0 <= j < i ==> a@[j] == y@[j],
        decreases a@.len() - i,
    {
        if a[i] != y[i] {
            return false;
        }
        i = i + 1;
    }
    assert(a@ =~= y@);
    true
}

/// Resolves a reference to an event.
pub fn resolve_event_name(
    current_package: &str,
    reference: &str,
    known: &Vec<String>,
    context: &str,
    diagnostics: &mut Vec<Diagnostic>,
) -> (r: Option<String>)
    ensures
        ({
            let (name, diags) = spec_resolve(current_package@, reference@, known@.map_values(|s: String| s@), "event"@, context@);
            &&& (r matches Some(s) ==> name == Some(s@))
            &&& (r is None ==> name is None)
            &&& final(diagnostics)@.map_values(|d: Diagnostic| d@) == old(diagnostics)@.map_values(|d: Diagnostic| d@) + diags
        }),
{
    resolve_qualified_name(current_package, reference, known, "event", context, diagnostics)
}

/// Resolves a reference to a component.
pub fn resolve_component_name(
    current_package: &str,
    reference: &str,
    known: &Vec<String>,
    context: &str,
    diagnostics: &mut Vec<Diagnostic>,
) -> (r: Option<String>)
    ensures
        ({
            let (name, diags) = spec_resolve(current_package@, reference@, known@.map_values(|s: String| s@), "component"@, context@);
            &&& (r matches Some(s) ==> name == Some(s@))
            &&& (r is None ==> name is None)
            &&& final(diagnostics)@.map_values(|d: Diagnostic| d@) == old(diagnostics)@.map_values(|d: Diagnostic| d@) + diags
        }),
{
    resolve_qualified_name(current_package, reference, known, "component", context, diagnostics)
}

/// `target.port`: split at the first `.`, with neither part empty.
pub open spec fn spec_parse_endpoint(endpoint: Seq<char>) -> Option<(Seq<char>, Seq<char>)> {
    match find_char_seq(endpoint, '.') {
        Some(i) => {
            let target = endpoint.subrange(0, i);
            let port = endpoint.subrange(i + 1, endpoint.len() as int);
            if target.len() == 0 || port.len() == 0 {
                None
            } else {
                Some((target, port))
            }
        },
        None => None,
    }
}

/// Splits an endpoint `self.port` or `instance.port` into its two parts.
pub fn parse_endpoint(endpoint: &str) -> (r: Option<(String, String)>)
    ensures
        r matches Some((t, p)) ==> spec_parse_endpoint(endpoint@) == Some((t@, p@)),
        r is None ==> spec_parse_endpoint(endpoint@) is None,
{
    let cs = chars_of(endpoint);
    match find_char(cs.as_slice(), '.') {
        Some(i) => {
            proof {
                crate::text::lemma_find_seq_bounds(cs@, seq!['.']);
                assert(crate::text::occurs_at(cs@, seq!['.'], i as int));
                assert(i + 1 <= cs@.len());
            }
            assert(i < cs.len());
            let target = slice_chars(cs.as_slice(), 0, i);
            let port = slice_chars(cs.as_slice(), i + 1, cs.len());
            if target.len() == 0 || port.len() == 0 {
                None
            } else {
                Some(
                    (
                        crate::text::string_from_chars(target.as_slice()),
                        crate::text::string_from_chars(port.as_slice()),
                    ),
                )
            }
        },
        None => None,
    }
}

} // verus!
