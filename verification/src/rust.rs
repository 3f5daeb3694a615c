//! The Rust scaffold of a resolved model: one module per component with
//! its event types, state, port names, handler trait, persistence hooks and
//! wiring, the shared runtime hook traits, and an application stub per
//! component.
use vstd::prelude::*;
use crate::contracts::{has_must_reply, spec_has_must_reply, spec_timeout_after, timeout_after};
use crate::graph::{ident_char, sanitized, sanitize};
use crate::ir::{NormalizedComponent, NormalizedConnection, NormalizedEvent, NormalizedPort, NormalizedSpec};
use crate::name_map::lookup;
use crate::normalize::views;
use crate::schema::PortDirection;

pub mod events;
pub mod hooks;
pub mod persistence;
pub mod ports;
pub mod state;
pub mod wiring;

verus! {

// ---------------------------------------------------------------------------
// Formatting with `Debug`.

/// What `Debug` formatting (`{:?}`) writes for a string: the text between
/// double quotes, with quotes, backslashes and non-printable characters
/// escaped.
pub uninterp spec fn debug_text(s: Seq<char>) -> Seq<char>;

/// A character that `Debug` formatting of a string writes as it is: an
/// ASCII letter or digit, `_`, `.`, `-`, `:`, `/` or a space.
pub open spec fn plain_char(c: char) -> bool {
    ident_char(c) || c == '_' || c == '.' || c == '-' || c == ':' || c == '/' || c == ' '
}

/// Formats a string with `Debug` (`format!("{:?}", s)`). The contract
/// names the result after the text it formats, and states that a text of
/// plain characters comes out between double quotes as it is (std escapes
/// only quotes, backslashes and characters that are not printable); how
/// other characters are escaped is not stated.
#[verifier::external_body]
pub(crate) fn debug_str(s: &str) -> (r: String)
    ensures
        r@ == debug_text(s@),
        (forall|i: int| 0 <= i < s@.len() ==> plain_char(#[trigger] s@[i])) ==> r@ == seq!['"'] + s@ + seq!['"'],
{
    format!("{:?}", s)
}

// ---------------------------------------------------------------------------
// ASCII characters.

/// An ASCII uppercase letter.
pub open spec fn ascii_upper(c: char) -> bool {
    'A' <= c && c <= 'Z'
}

/// An ASCII lowercase letter.
pub open spec fn ascii_lower(c: char) -> bool {
    'a' <= c && c <= 'z'
}

/// An ASCII digit.
pub open spec fn ascii_digit(c: char) -> bool {
    '0' <= c && c <= '9'
}

/// The character with an ASCII uppercase letter made lowercase
/// (`char::to_ascii_lowercase`).
pub open spec fn lower_char(c: char) -> char {
    if ascii_upper(c) {
        ((c as u32) + 32) as char
    } else {
        c
    }
}

/// The character with an ASCII lowercase letter made uppercase
/// (`char::to_ascii_uppercase`).
pub open spec fn upper_char(c: char) -> char {
    if ascii_lower(c) {
        ((c as u32) - 32) as char
    } else {
        c
    }
}

fn to_lower(c: char) -> (r: char)
    ensures
        r == lower_char(c),
{
    if 'A' <= c && c <= 'Z' {
        let u = c as u32;
        let v = (u + 32) as u8;
        v as char
    } else {
        c
    }
}

fn to_upper(c: char) -> (r: char)
    ensures
        r == upper_char(c),
{
    if 'a' <= c && c <= 'z' {
        let u = c as u32;
        let v = (u - 32) as u8;
        v as char
    } else {
        c
    }
}

/// The text with every ASCII letter in lowercase (`str::to_ascii_lowercase`).
pub open spec fn ascii_lowercase(s: Seq<char>) -> Seq<char> {
    s.map_values(|c: char| lower_char(c))
}

/// The text with every ASCII letter in uppercase (`str::to_ascii_uppercase`).
pub open spec fn ascii_uppercase(s: Seq<char>) -> Seq<char> {
    s.map_values(|c: char| upper_char(c))
}

/// The text with every ASCII letter in lowercase.
pub fn to_ascii_lowercase(s: &str) -> (r: String)
    ensures
        r@ == ascii_lowercase(s@),
{
    let cs = crate::text::chars_of(s);
    let mut r = String::new();
    let mut i: usize = 0;
    while i < cs.len()
        invariant
            cs@ == s@,
            i <= cs@.len(),
            r@ == ascii_lowercase(s@.take(i as int)),
        decreases cs@.len() - i,
    {
        let c = to_lower(cs[i]);
        r.push(c);
        assert(ascii_lowercase(s@.take(i + 1)) =~= ascii_lowercase(s@.take(i as int)).push(c));
        i = i + 1;
    }
    assert(s@.take(cs@.len() as int) =~= s@);
    r
}

/// The text with every ASCII letter in uppercase.
pub fn to_ascii_uppercase(s: &str) -> (r: String)
    ensures
        r@ == ascii_uppercase(s@),
{
    let cs = crate::text::chars_of(s);
    let mut r = String::new();
    let mut i: usize = 0;
    while i < cs.len()
        invariant
            cs@ == s@,
            i <= cs@.len(),
            r@ == ascii_uppercase(s@.take(i as int)),
        decreases cs@.len() - i,
    {
        let c = to_upper(cs[i]);
        r.push(c);
        assert(ascii_uppercase(s@.take(i + 1)) =~= ascii_uppercase(s@.take(i as int)).push(c));
        i = i + 1;
    }
    assert(s@.take(cs@.len() as int) =~= s@);
    r
}

// ---------------------------------------------------------------------------
// Names.

/// The snake_case rendering of the first characters of a name, with
/// whether the last character written continues a lowercase run.
pub open spec fn module_fold(s: Seq<char>) -> (Seq<char>, bool)
    decreases s.len(),
{
    if s.len() == 0 {
        (Seq::empty(), false)
    } else {
        let (out, last_lower) = module_fold(s.drop_last());
        let c = s.last();
        if ascii_upper(c) {
            ((if last_lower { out.push('_') } else { out }).push(lower_char(c)), false)
        } else if ascii_lower(c) || ascii_digit(c) {
            (out.push(c), true)
        } else {
            (if out.len() > 0 && out.last() == '_' { out } else { out.push('_') }, false)
        }
    }
}

/// A name in snake_case: an uppercase letter that follows a lowercase
/// letter or digit starts a new word; letters are lowercased; a run of
/// other characters becomes one `_`.
pub open spec fn module_text(s: Seq<char>) -> Seq<char> {
    module_fold(s).0
}

/// The snake_case module name of a component, port, event or transition.
pub fn module_name(name: &str) -> (r: String)
    ensures
        r@ == module_text(name@),
{
    let cs = crate::text::chars_of(name);
    let mut output = String::new();
    let mut last_was_lower = false;
    let mut i: usize = 0;
    while i < cs.len()
        invariant
            cs@ == name@,
            i <= cs@.len(),
            (output@, last_was_lower) == module_fold(name@.take(i as int)),
        decreases cs@.len() - i,
    {
        assert(name@.take(i + 1).drop_last() =~= name@.take(i as int));
        let ch = cs[i];
        if 'A' <= ch && ch <= 'Z' {
            if last_was_lower {
                output.push('_');
            }
            output.push(to_lower(ch));
            last_was_lower = false;
        } else if ('a' <= ch && ch <= 'z') || ('0' <= ch && ch <= '9') {
            output.push(ch);
            last_was_lower = true;
        } else {
            let n = crate::text::chars_of(output.as_str());
            if !(n.len() > 0 && n[n.len() - 1] == '_') {
                output.push('_');
            }
            last_was_lower = false;
        }
        i = i + 1;
    }
    assert(name@.take(cs@.len() as int) =~= name@);
    output
}

/// The name as a Rust type name: ASCII letters and digits kept, every
/// other character replaced by `_`.
pub fn rust_type_name(name: &str) -> (r: String)
    ensures
        r@ == sanitized(name@),
{
    sanitize(name)
}

/// The text without its spaces.
pub open spec fn without_spaces(s: Seq<char>) -> Seq<char>
    decreases s.len(),
{
    if s.len() == 0 {
        Seq::empty()
    } else if s.last() == ' ' {
        without_spaces(s.drop_last())
    } else {
        without_spaces(s.drop_last()).push(s.last())
    }
}

/// The Rust type of an IDL field type, spaces ignored; unknown types are
/// carried as `String`.
pub open spec fn rust_type_text(t: Seq<char>) -> Seq<char> {
    let k = without_spaces(t);
    if k == "bool"@ {
        "bool"@
    } else if k == "i64"@ {
        "i64"@
    } else if k == "u64"@ {
        "u64"@
    } else if k == "map<string,string>"@ {
        "std::collections::BTreeMap<String, String>"@
    } else {
        "String"@
    }
}

/// The Rust type of an IDL field type.
pub fn rust_type(idl_type: &str) -> (r: String)
    ensures
        r@ == rust_type_text(idl_type@),
{
    let cs = crate::text::chars_of(idl_type);
    let mut k = String::new();
    let mut i: usize = 0;
    while i < cs.len()
        invariant
            cs@ == idl_type@,
            i <= cs@.len(),
            k@ == without_spaces(idl_type@.take(i as int)),
        decreases cs@.len() - i,
    {
        assert(idl_type@.take(i + 1).drop_last() =~= idl_type@.take(i as int));
        if cs[i] != ' ' {
            k.push(cs[i]);
        }
        i = i + 1;
    }
    assert(idl_type@.take(cs@.len() as int) =~= idl_type@);
    let key = k.as_str();
    if crate::text::str_equal(key, "bool") {
        "bool".to_owned()
    } else if crate::text::str_equal(key, "i64") {
        "i64".to_owned()
    } else if crate::text::str_equal(key, "u64") {
        "u64".to_owned()
    } else if crate::text::str_equal(key, "map<string,string>") {
        "std::collections::BTreeMap<String, String>".to_owned()
    } else {
        "String".to_owned()
    }
}


// ---------------------------------------------------------------------------
// What a component touches.

/// The events named by `names`, each name taken at its first occurrence
/// and kept when the model defines it.
pub open spec fn events_named(evs: Seq<(Seq<char>, NormalizedEvent)>, names: Seq<Seq<char>>) -> Seq<NormalizedEvent>
    decreases names.len(),
{
    if names.len() == 0 {
        Seq::empty()
    } else {
        let prev = events_named(evs, names.drop_last());
        let x = names.last();
        if names.drop_last().contains(x) {
            prev
        } else {
            match lookup(evs, x) {
                Some(e) => prev.push(e),
                None => prev,
            }
        }
    }
}

/// The events a component receives, then those it sends, each once.
pub open spec fn component_event_list(c: NormalizedComponent, n: NormalizedSpec) -> Seq<NormalizedEvent> {
    events_named(n.events@, views(c.inbound_events@) + views(c.outbound_events@))
}

fn event_names(component: &NormalizedComponent) -> (r: Vec<String>)
    ensures
        views(r@) == views(component.inbound_events@) + views(component.outbound_events@),
{
    let mut names: Vec<String> = Vec::new();
    let mut k: usize = 0;
    while k < component.inbound_events.len()
        invariant
            k <= component.inbound_events@.len(),
            views(names@) == views(component.inbound_events@.take(k as int)),
        decreases component.inbound_events@.len() - k,
    {
        let x = component.inbound_events[k].clone();
        let ghost prev = names@;
        names.push(x);
        assert(views(names@) =~= views(prev).push(x@));
        assert(views(component.inbound_events@.take(k + 1)) =~= views(component.inbound_events@.take(k as int)).push(x@));
        k = k + 1;
    }
    assert(component.inbound_events@.take(component.inbound_events@.len() as int) =~= component.inbound_events@);
    let mut k: usize = 0;
    while k < component.outbound_events.len()
        invariant
            k <= component.outbound_events@.len(),
            views(names@) == views(component.inbound_events@) + views(component.outbound_events@.take(k as int)),
        decreases component.outbound_events@.len() - k,
    {
        let x = component.outbound_events[k].clone();
        let ghost prev = names@;
        names.push(x);
        assert(views(names@) =~= views(prev).push(x@));
        assert(views(component.outbound_events@.take(k + 1)) =~= views(component.outbound_events@.take(k as int)).push(x@));
        k = k + 1;
    }
    assert(component.outbound_events@.take(component.outbound_events@.len() as int) =~= component.outbound_events@);
    names
}

fn seen_before(names: &Vec<String>, i: usize) -> (r: bool)
    requires
        i < names@.len(),
    ensures
        r == views(names@).take(i as int).contains(views(names@)[i as int]),
{
    let ghost all = views(names@);
    let mut j: usize = 0;
    while j < i
        invariant
            all == views(names@),
            i < names@.len(),
            j <= i,
            forall|x: int| 0 <= x < j ==> all[x] != all[i as int],
        decreases i - j,
    {
        assert(all[j as int] == names@[j as int]@);
        assert(all[i as int] == names@[i as int]@);
        if crate::text::str_equal(names[j].as_str(), names[i].as_str()) {
            assert(all.take(i as int)[j as int] == all[i as int]);
            return true;
        }
        j = j + 1;
    }
    false
}

/// The events that a component receives or sends, inbound first, each
/// once.
pub fn component_events<'a>(component: &'a NormalizedComponent, spec: &'a NormalizedSpec) -> (r: Vec<&'a NormalizedEvent>)
    ensures
        r@.len() == component_event_list(*component, *spec).len(),
        forall|i: int| 0 <= i < r@.len() ==> *r@[i] == component_event_list(*component, *spec)[i],
{
    let names = event_names(component);
    let ghost all = views(names@);
    let mut out: Vec<&'a NormalizedEvent> = Vec::new();
    let mut i: usize = 0;
    while i < names.len()
        invariant
            all == views(names@),
            all == views(component.inbound_events@) + views(component.outbound_events@),
            i <= names@.len(),
            out@.len() == events_named(spec.events@, all.take(i as int)).len(),
            forall|j: int| 0 <= j < out@.len() ==> *out@[j] == events_named(spec.events@, all.take(i as int))[j],
        decreases names@.len() - i,
    {
        assert(all.take(i + 1).drop_last() =~= all.take(i as int));
        assert(all.take(i + 1).last() == all[i as int]);
        assert(all[i as int] == names@[i as int]@);
        if !seen_before(&names, i) {
            match spec.events.get(names[i].as_str()) {
                Some(e) => {
                    out.push(e);
                },
                None => {},
            }
        }
        i = i + 1;
    }
    assert(all.take(names@.len() as int) =~= all);
    out
}

/// The ports of the list with the given direction, in order.
pub open spec fn ports_with(ports: Seq<(Seq<char>, NormalizedPort)>, dir: PortDirection) -> Seq<NormalizedPort>
    decreases ports.len(),
{
    if ports.len() == 0 {
        Seq::empty()
    } else {
        let prev = ports_with(ports.drop_last(), dir);
        if ports.last().1.direction == dir {
            prev.push(ports.last().1)
        } else {
            prev
        }
    }
}

fn ports_of_direction<'a>(component: &'a NormalizedComponent, dir: PortDirection) -> (r: Vec<&'a NormalizedPort>)
    ensures
        r@.len() == ports_with(component.ports@, dir).len(),
        forall|i: int| 0 <= i < r@.len() ==> *r@[i] == ports_with(component.ports@, dir)[i],
{
    let mut out: Vec<&'a NormalizedPort> = Vec::new();
    let mut k: usize = 0;
    while k < component.ports.len()
        invariant
            k <= component.ports@.len(),
            out@.len() == ports_with(component.ports@.take(k as int), dir).len(),
            forall|i: int| 0 <= i < out@.len() ==> *out@[i] == ports_with(component.ports@.take(k as int), dir)[i],
        decreases component.ports@.len() - k,
    {
        assert(component.ports@.take(k + 1).drop_last() =~= component.ports@.take(k as int));
        let p = component.ports.value_at(k);
        if p.direction == dir {
            out.push(p);
        }
        k = k + 1;
    }
    assert(component.ports@.take(component.ports@.len() as int) =~= component.ports@);
    out
}

/// The `out` ports of a component, in name order.
pub fn outgoing_ports<'a>(component: &'a NormalizedComponent) -> (r: Vec<&'a NormalizedPort>)
    ensures
        r@.len() == ports_with(component.ports@, PortDirection::Out).len(),
        forall|i: int| 0 <= i < r@.len() ==> *r@[i] == ports_with(component.ports@, PortDirection::Out)[i],
{
    ports_of_direction(component, PortDirection::Out)
}

/// The `in` ports of a component, in name order.
pub fn incoming_ports<'a>(component: &'a NormalizedComponent) -> (r: Vec<&'a NormalizedPort>)
    ensures
        r@.len() == ports_with(component.ports@, PortDirection::In).len(),
        forall|i: int| 0 <= i < r@.len() ==> *r@[i] == ports_with(component.ports@, PortDirection::In)[i],
{
    ports_of_direction(component, PortDirection::In)
}

/// The connections of the list from port `port` of component `comp`.
pub open spec fn connections_from(cs: Seq<NormalizedConnection>, comp: Seq<char>, port: Seq<char>) -> Seq<NormalizedConnection>
    decreases cs.len(),
{
    if cs.len() == 0 {
        Seq::empty()
    } else {
        let prev = connections_from(cs.drop_last(), comp, port);
        if cs.last().from_component@ == comp && cs.last().from_port@ == port {
            prev.push(cs.last())
        } else {
            prev
        }
    }
}

/// The connections that start at a port of a component, in order.
pub fn outgoing_connections_for_port<'a>(spec: &'a NormalizedSpec, component_name: &str, port_name: &str) -> (r: Vec<
    &'a NormalizedConnection,
>)
    ensures
        r@.len() == connections_from(spec.connections@, component_name@, port_name@).len(),
        forall|i: int| 0 <= i < r@.len() ==> *r@[i] == connections_from(spec.connections@, component_name@, port_name@)[i],
{
    let mut out: Vec<&'a NormalizedConnection> = Vec::new();
    let mut k: usize = 0;
    while k < spec.connections.len()
        invariant
            k <= spec.connections@.len(),
            out@.len() == connections_from(spec.connections@.take(k as int), component_name@, port_name@).len(),
            forall|i: int| 0 <= i < out@.len() ==> *out@[i] == connections_from(spec.connections@.take(k as int), component_name@, port_name@)[i],
        decreases spec.connections@.len() - k,
    {
        assert(spec.connections@.take(k + 1).drop_last() =~= spec.connections@.take(k as int));
        let c = &spec.connections[k];
        if crate::text::str_equal(c.from_component.as_str(), component_name) && crate::text::str_equal(c.from_port.as_str(), port_name) {
            out.push(c);
        }
        k = k + 1;
    }
    assert(spec.connections@.take(spec.connections@.len() as int) =~= spec.connections@);
    out
}

/// `true` or `false`.
pub open spec fn bool_text(b: bool) -> Seq<char> {
    if b {
        "true"@
    } else {
        "false"@
    }
}

/// The contract metadata of a port: `None` when it declares neither
/// `must_reply` nor a timeout, else both, the timeout formatted with
/// `Debug` (empty when absent).
pub open spec fn contract_metadata_text(p: NormalizedPort) -> Seq<char> {
    let must_reply = spec_has_must_reply(p.contracts);
    let timeout = spec_timeout_after(p.contracts);
    if !must_reply && timeout is None {
        "None"@
    } else {
        "Some(("@ + bool_text(must_reply) + ", "@ + debug_text(
            match timeout {
                Some(t) => t,
                None => Seq::empty(),
            },
        ) + "))"@
    }
}

/// The contract metadata of a port.
pub fn render_contract_metadata(port: &NormalizedPort) -> (r: String)
    ensures
        r@ == contract_metadata_text(*port),
{
    let must_reply = has_must_reply(&port.contracts);
    let timeout = timeout_after(&port.contracts);
    if !must_reply && timeout.is_none() {
        return "None".to_owned();
    }
    proof {
        reveal_strlit("");
        assert(""@ =~= Seq::<char>::empty());
    }
    let shown = match &timeout {
        Some(t) => debug_str(t.as_str()),
        None => debug_str(""),
    };
    let mut out = String::new();
    out.append("Some((");
    if must_reply {
        out.append("true");
    } else {
        out.append("false");
    }
    out.append(", ");
    out.append(shown.as_str());
    out.append("))");
    out
}


// ---------------------------------------------------------------------------
// The shared files and the per-component files.

/// The module declarations of the components `cs`, in order.
pub open spec fn module_decls(cs: Seq<(Seq<char>, NormalizedComponent)>) -> Seq<char>
    decreases cs.len(),
{
    if cs.len() == 0 {
        Seq::empty()
    } else {
        module_decls(cs.drop_last()) + "pub mod "@ + module_text(cs.last().1.name@) + ";\n"@
    }
}

/// The root module of the scaffold.
pub open spec fn root_mod_text(n: NormalizedSpec, header: Seq<char>) -> Seq<char> {
    header + "\n"@ + "\n"@ + "pub mod runtime_contracts;\n"@ + module_decls(n.components@)
}

fn render_generated_root_mod(spec: &NormalizedSpec, header: &str) -> (r: String)
    ensures
        r@ == root_mod_text(*spec, header@),
{
    let mut out = String::new();
    out.append(header);
    out.append("\n");
    out.append("\n");
    out.append("pub mod runtime_contracts;\n");
    let ghost start = out@;
    let n = spec.components.len();
    let mut i: usize = 0;
    while i < n
        invariant
            n == spec.components@.len(),
            i <= n,
            out@ == start + module_decls(spec.components@.take(i as int)),
        decreases n - i,
    {
        assert(spec.components@.take(i + 1).drop_last() =~= spec.components@.take(i as int));
        let c = spec.components.value_at(i);
        let m = module_name(c.name.as_str());
        out.append("pub mod ");
        out.append(m.as_str());
        out.append(";\n");
        assert(out@ =~= start + module_decls(spec.components@.take(i + 1)));
        i = i + 1;
    }
    assert(spec.components@.take(n as int) =~= spec.components@);
    out
}

/// The runtime hook traits that every component module uses, after the
/// header.
pub open spec fn runtime_contracts_text(header: Seq<char>) -> Seq<char> {
    header + "\n\n#[derive(Debug, Clone)]\n"@ + "pub struct HookMetadata {\n"@ + "pub component: &'static str,\n"@
        + "pub port: Option<&'static str>,\n"@ + "pub event: Option<&'static str>,\n"@ + "pub locality: &'static str,\n"@
        + "pub correlation_hint: Option<&'static str>,\n"@ + "pub retry_hint: Option<&'static str>,\n"@ + "}\n\n"@
        + "pub trait RuntimeHooks {\n"@ + "fn on_send(&mut self, metadata: &HookMetadata);\n"@
        + "fn on_receive(&mut self, metadata: &HookMetadata);\n"@ + "fn on_transition_enter(&mut self, metadata: &HookMetadata);\n"@
        + "fn on_transition_exit(&mut self, metadata: &HookMetadata);\n"@
        + "fn on_non_local_dispatch(&mut self, metadata: &HookMetadata);\n"@ + "}\n\n"@ + "pub trait MustReplyHooks {\n"@
        + "fn on_request_started(&mut self, metadata: &HookMetadata);\n"@ + "fn on_reply_observed(&mut self, metadata: &HookMetadata);\n"@
        + "fn on_reply_missing(&mut self, metadata: &HookMetadata);\n"@ + "}\n\n"@ + "pub trait TimeoutHooks {\n"@
        + "fn on_timeout_window_started(&mut self, metadata: &HookMetadata, after: &str);\n"@
        + "fn on_timeout_event_fired(&mut self, metadata: &HookMetadata);\n"@
        + "fn on_timeout_contract_violation(&mut self, metadata: &HookMetadata, after: &str);\n"@ + "}\n\n"@
        + "pub trait LocalDispatch {\n"@ + "fn dispatch_local(&mut self, metadata: &HookMetadata);\n"@ + "}\n\n"@
        + "pub trait NonLocalDispatch {\n"@ + "fn dispatch_non_local(&mut self, metadata: &HookMetadata);\n"@ + "}\n"@
}

/// Renders the runtime hook traits.
pub fn render_generated_runtime_contracts(header: &str) -> (r: String)
    ensures
        r@ == runtime_contracts_text(header@),
{
    let mut out = String::new();
    out.append(header);
    out.append("\n\n#[derive(Debug, Clone)]\n");
    out.append("pub struct HookMetadata {\n");
    out.append("pub component: &'static str,\n");
    out.append("pub port: Option<&'static str>,\n");
    out.append("pub event: Option<&'static str>,\n");
    out.append("pub locality: &'static str,\n");
    out.append("pub correlation_hint: Option<&'static str>,\n");
    out.append("pub retry_hint: Option<&'static str>,\n");
    out.append("}\n\n");
    out.append("pub trait RuntimeHooks {\n");
    out.append("fn on_send(&mut self, metadata: &HookMetadata);\n");
    out.append("fn on_receive(&mut self, metadata: &HookMetadata);\n");
    out.append("fn on_transition_enter(&mut self, metadata: &HookMetadata);\n");
    out.append("fn on_transition_exit(&mut self, metadata: &HookMetadata);\n");
    out.append("fn on_non_local_dispatch(&mut self, metadata: &HookMetadata);\n");
    out.append("}\n\n");
    out.append("pub trait MustReplyHooks {\n");
    out.append("fn on_request_started(&mut self, metadata: &HookMetadata);\n");
    out.append("fn on_reply_observed(&mut self, metadata: &HookMetadata);\n");
    out.append("fn on_reply_missing(&mut self, metadata: &HookMetadata);\n");
    out.append("}\n\n");
    out.append("pub trait TimeoutHooks {\n");
    out.append("fn on_timeout_window_started(&mut self, metadata: &HookMetadata, after: &str);\n");
    out.append("fn on_timeout_event_fired(&mut self, metadata: &HookMetadata);\n");
    out.append("fn on_timeout_contract_violation(&mut self, metadata: &HookMetadata, after: &str);\n");
    out.append("}\n\n");
    out.append("pub trait LocalDispatch {\n");
    out.append("fn dispatch_local(&mut self, metadata: &HookMetadata);\n");
    out.append("}\n\n");
    out.append("pub trait NonLocalDispatch {\n");
    out.append("fn dispatch_non_local(&mut self, metadata: &HookMetadata);\n");
    out.append("}\n");
    out
}

/// The module file of a component: its submodules and the handler and
/// state types it re-exports.
pub open spec fn component_mod_text(c: NormalizedComponent, header: Seq<char>) -> Seq<char> {
    let tn = sanitized(c.name@);
    header + "\n"@ + "\npub mod events;\npub mod hooks;\npub mod persistence;\npub mod ports;\npub mod state;\npub mod wiring;\n"@
        + "\npub use hooks::"@ + tn + "Handler;\npub use state::"@ + tn + "State;\n"@
}

fn render_component_mod(component: &NormalizedComponent, header: &str) -> (r: String)
    ensures
        r@ == component_mod_text(*component, header@),
{
    let tn = rust_type_name(component.name.as_str());
    let mut out = String::new();
    out.append(header);
    out.append("\n");
    out.append("\npub mod events;\npub mod hooks;\npub mod persistence;\npub mod ports;\npub mod state;\npub mod wiring;\n");
    out.append("\npub use hooks::");
    out.append(tn.as_str());
    out.append("Handler;\npub use state::");
    out.append(tn.as_str());
    out.append("State;\n");
    out
}

/// The stub of one transition handler in the application scaffold.
pub open spec fn app_method(tn: Seq<char>, t: crate::ir::NormalizedTransition) -> Seq<char> {
    "    fn handle_"@ + module_text(t.name@) + "(&mut self, _state: &mut "@ + tn
        + "State) {\n        // TODO: implement transition logic for `"@ + t.name@ + "`.\n    }\n"@
}

/// The stubs of the transitions `ts`, in order.
pub open spec fn app_methods(tn: Seq<char>, ts: Seq<(Seq<char>, crate::ir::NormalizedTransition)>) -> Seq<char>
    decreases ts.len(),
{
    if ts.len() == 0 {
        Seq::empty()
    } else {
        app_methods(tn, ts.drop_last()) + app_method(tn, ts.last().1)
    }
}

/// The application scaffold of a component: a type implementing its
/// handler with a stub per transition.
pub open spec fn app_scaffold_text(c: NormalizedComponent, header: Seq<char>) -> Seq<char> {
    let tn = sanitized(c.name@);
    let m = module_text(c.name@);
    header + "\n\nuse crate::generated::"@ + m + "::hooks::"@ + tn + "Handler;\nuse crate::generated::"@ + m + "::state::"@ + tn
        + "State;\n\npub struct "@ + tn + "App;\n\nimpl "@ + tn + "Handler for "@ + tn + "App {\n"@ + app_methods(tn, c.transitions@)
        + "}\n"@
}

fn render_app_scaffold(component: &NormalizedComponent, header: &str) -> (r: String)
    ensures
        r@ == app_scaffold_text(*component, header@),
{
    let tn = rust_type_name(component.name.as_str());
    let m = module_name(component.name.as_str());
    let mut out = String::new();
    out.append(header);
    out.append("\n\nuse crate::generated::");
    out.append(m.as_str());
    out.append("::hooks::");
    out.append(tn.as_str());
    out.append("Handler;\nuse crate::generated::");
    out.append(m.as_str());
    out.append("::state::");
    out.append(tn.as_str());
    out.append("State;\n\npub struct ");
    out.append(tn.as_str());
    out.append("App;\n\nimpl ");
    out.append(tn.as_str());
    out.append("Handler for ");
    out.append(tn.as_str());
    out.append("App {\n");
    let ghost mid = out@;
    let mut i: usize = 0;
    while i < component.transitions.len()
        invariant
            i <= component.transitions@.len(),
            tn@ == sanitized(component.name@),
            out@ == mid + app_methods(tn@, component.transitions@.take(i as int)),
        decreases component.transitions@.len() - i,
    {
        assert(component.transitions@.take(i + 1).drop_last() =~= component.transitions@.take(i as int));
        let t = component.transitions.value_at(i);
        let h = module_name(t.name.as_str());
        let ghost before = out@;
        out.append("    fn handle_");
        out.append(h.as_str());
        out.append("(&mut self, _state: &mut ");
        out.append(tn.as_str());
        out.append("State) {\n        // TODO: implement transition logic for `");
        out.append(t.name.as_str());
        out.append("`.\n    }\n");
        assert(out@ =~= before + app_method(tn@, *t));
        assert(out@ =~= mid + app_methods(tn@, component.transitions@.take(i + 1)));
        i = i + 1;
    }
    assert(component.transitions@.take(component.transitions@.len() as int) =~= component.transitions@);
    out.append("}\n");
    assert(out@ =~= app_scaffold_text(*component, header@));
    out
}


// ---------------------------------------------------------------------------
// The whole scaffold.

/// A file of the scaffold: its path relative to the output directory, its
/// contents, and whether an existing copy is kept (application files) or
/// rewritten (generated files).
#[derive(Debug, Clone, PartialEq, Eq)]
pub struct RenderedFile {
    pub relative_path: String,
    pub contents: String,
    pub preserve_existing: bool,
}

/// A rendered file as its path, contents and whether it is kept.
pub open spec fn rendered_model(f: RenderedFile) -> (Seq<char>, Seq<char>, bool) {
    (f.relative_path@, f.contents@, f.preserve_existing)
}

/// The files of one component: its generated module, then its application
/// stub when asked for.
pub open spec fn component_files(n: NormalizedSpec, c: NormalizedComponent, header: Seq<char>, create_app: bool) -> Seq<
    (Seq<char>, Seq<char>, bool),
> {
    let m = module_text(c.name@);
    let dir = "src/generated/"@ + m;
    seq![
        (dir + "/mod.rs"@, component_mod_text(c, header), false),
        (dir + "/events.rs"@, events::events_text(c, n, header), false),
        (dir + "/state.rs"@, state::state_text(c, header), false),
        (dir + "/ports.rs"@, ports::ports_text(c, n, header), false),
        (dir + "/hooks.rs"@, hooks::hooks_text(c, header), false),
        (dir + "/persistence.rs"@, persistence::persistence_text(c, header), false),
        (dir + "/wiring.rs"@, wiring::wiring_text(c, n, header), false),
    ] + if create_app {
        seq![("src/app/"@ + m + ".rs"@, app_scaffold_text(c, header), true)]
    } else {
        Seq::empty()
    }
}

/// The files of the components `cs`, in order.
pub open spec fn components_files(n: NormalizedSpec, cs: Seq<(Seq<char>, NormalizedComponent)>, header: Seq<char>, create_app: bool) -> Seq<
    (Seq<char>, Seq<char>, bool),
>
    decreases cs.len(),
{
    if cs.len() == 0 {
        Seq::empty()
    } else {
        components_files(n, cs.drop_last(), header, create_app) + component_files(n, cs.last().1, header, create_app)
    }
}

/// Every file of the scaffold: the root module, the runtime hook traits,
/// then the files of each component.
pub open spec fn project_files(n: NormalizedSpec, header: Seq<char>, create_app: bool) -> Seq<(Seq<char>, Seq<char>, bool)> {
    seq![
        ("src/generated/mod.rs"@, root_mod_text(n, header), false),
        ("src/generated/runtime_contracts.rs"@, runtime_contracts_text(header), false),
    ] + components_files(n, n.components@, header, create_app)
}

fn push_file(files: &mut Vec<RenderedFile>, dir: &String, name: &str, contents: String)
    ensures
        final(files)@.map_values(|f: RenderedFile| rendered_model(f)) == old(files)@.map_values(|f: RenderedFile| rendered_model(f)).push(
            (dir@ + name@, contents@, false),
        ),
{
    let mut path = dir.clone();
    path.append(name);
    let ghost before = files@;
    files.push(RenderedFile { relative_path: path, contents, preserve_existing: false });
    assert(files@.map_values(|f: RenderedFile| rendered_model(f)) =~= before.map_values(|f: RenderedFile| rendered_model(f)).push(
        (dir@ + name@, contents@, false),
    ));
}

fn push_component_files(files: &mut Vec<RenderedFile>, spec: &NormalizedSpec, c: &NormalizedComponent, header: &str, create_app: bool)
    ensures
        final(files)@.map_values(|f: RenderedFile| rendered_model(f)) == old(files)@.map_values(|f: RenderedFile| rendered_model(f))
            + component_files(*spec, *c, header@, create_app),
{
    let ghost start = files@.map_values(|f: RenderedFile| rendered_model(f));
    let m = module_name(c.name.as_str());
    let mut dir = String::new();
    dir.append("src/generated/");
    dir.append(m.as_str());
    push_file(files, &dir, "/mod.rs", render_component_mod(c, header));
    push_file(files, &dir, "/events.rs", events::render(c, spec, header));
    push_file(files, &dir, "/state.rs", state::render(c, header));
    push_file(files, &dir, "/ports.rs", ports::render(c, spec, header));
    push_file(files, &dir, "/hooks.rs", hooks::render(c, header));
    push_file(files, &dir, "/persistence.rs", persistence::render(c, header));
    push_file(files, &dir, "/wiring.rs", wiring::render(c, spec, header));
    if create_app {
        let mut path = String::new();
        path.append("src/app/");
        path.append(m.as_str());
        path.append(".rs");
        let contents = render_app_scaffold(c, header);
        let ghost before = files@;
        files.push(RenderedFile { relative_path: path, contents, preserve_existing: true });
        assert(files@.map_values(|f: RenderedFile| rendered_model(f)) =~= before.map_values(|f: RenderedFile| rendered_model(f)).push(
            (path@, contents@, true),
        ));
    }
    assert(files@.map_values(|f: RenderedFile| rendered_model(f)) =~= start + component_files(*spec, *c, header@, create_app));
}

/// Every file of the scaffold of a model, under the given header.
pub fn render_project_files(spec: &NormalizedSpec, header: &str, create_app_scaffold: bool) -> (r: Vec<RenderedFile>)
    ensures
        r@.map_values(|f: RenderedFile| rendered_model(f)) == project_files(*spec, header@, create_app_scaffold),
{
    let mut files: Vec<RenderedFile> = Vec::new();
    files.push(
        RenderedFile {
            relative_path: "src/generated/mod.rs".to_owned(),
            contents: render_generated_root_mod(spec, header),
            preserve_existing: false,
        },
    );
    files.push(
        RenderedFile {
            relative_path: "src/generated/runtime_contracts.rs".to_owned(),
            contents: render_generated_runtime_contracts(header),
            preserve_existing: false,
        },
    );
    let ghost head = files@.map_values(|f: RenderedFile| rendered_model(f));
    let n = spec.components.len();
    let mut i: usize = 0;
    while i < n
        invariant
            n == spec.components@.len(),
            i <= n,
            files@.map_values(|f: RenderedFile| rendered_model(f)) == head + components_files(
                *spec,
                spec.components@.take(i as int),
                header@,
                create_app_scaffold,
            ),
        decreases n - i,
    {
        assert(spec.components@.take(i + 1).drop_last() =~= spec.components@.take(i as int));
        push_component_files(&mut files, spec, spec.components.value_at(i), header, create_app_scaffold);
        assert(files@.map_values(|f: RenderedFile| rendered_model(f)) =~= head + components_files(
            *spec,
            spec.components@.take(i + 1),
            header@,
            create_app_scaffold,
        ));
        i = i + 1;
    }
    assert(spec.components@.take(n as int) =~= spec.components@);
    assert(files@.map_values(|f: RenderedFile| rendered_model(f)) =~= project_files(*spec, header@, create_app_scaffold));
    files
}

} // verus!


