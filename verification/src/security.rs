//! Security posture of a pod and of a container, and their compact
//! symbolic encodings.

use crate::error::ReportError;
use crate::json::{views, Json, JsonValue};
use crate::text::{decimal, lemma_decimal_is_plain, push_decimal, text_is, texts};
use vstd::prelude::*;

verus! {

/// What a pod-level security context configures.
pub struct PodSecurityPosture {
    pub user: int,
    pub group: int,
    pub fs_group: int,
    pub run_as_non_root: bool,
    pub seccomp_enabled: bool,
    pub seccomp_is_runtime_default: bool,
}

/// What a container-level security context configures.
pub struct ContainerSecurityPosture {
    pub allow_privilege_escalation: bool,
    pub capabilities_configured: bool,
    pub read_only_filesystem: bool,
    pub dropped: Seq<Seq<char>>,
    pub added: Seq<Seq<char>>,
}

/// The integer member `key` of `doc`, or 0 where `doc` has no such member
/// or holds it with another type.
pub open spec fn id_or_zero(doc: JsonValue, key: Seq<char>) -> int {
    match doc.at(key).as_int() {
        Some(id) => id,
        None => 0,
    }
}

/// Whether a pod-level security context can be classified: a seccomp
/// profile, where there is one, is an object, and its type, where it has
/// one, is a string.
pub open spec fn pod_context_accepted(doc: JsonValue) -> bool {
    doc.member("seccompProfile"@) matches Some(profile) ==> {
        &&& profile is Object
        &&& profile.member("type"@) matches Some(kind) ==> kind is Str
    }
}

/// The posture that a pod-level security context configures. The three
/// ids default to 0, so an absent id reads like root.
pub open spec fn pod_posture(doc: JsonValue) -> PodSecurityPosture {
    PodSecurityPosture {
        user: id_or_zero(doc, "runAsUser"@),
        group: id_or_zero(doc, "runAsGroup"@),
        fs_group: id_or_zero(doc, "fsGroup"@),
        run_as_non_root: doc.at("runAsNonRoot"@).as_bool() == Some(true),
        seccomp_enabled: doc.member("seccompProfile"@) is Some,
        seccomp_is_runtime_default: doc.at("seccompProfile"@).at("type"@).as_text() == Some(
            "RuntimeDefault"@,
        ),
    }
}

/// The effective ids of a pod: one number where user, group and
/// filesystem group agree, else the three joined by slashes.
pub open spec fn uid_summary(p: PodSecurityPosture) -> Seq<char> {
    if p.user == p.group && p.group == p.fs_group {
        decimal(p.user)
    } else {
        decimal(p.user) + seq!['/'] + decimal(p.group) + seq!['/'] + decimal(p.fs_group)
    }
}

/// Equal ids render as one number, with no slash in it.
pub proof fn lemma_equal_ids_render_as_one_number(p: PodSecurityPosture)
    requires
        p.user == p.group,
        p.group == p.fs_group,
    ensures
        uid_summary(p) == decimal(p.user),
        !uid_summary(p).contains('/'),
{
    lemma_decimal_is_plain(p.user);
}

/// Ids that differ render in the slash form: user, group and filesystem
/// group, in this order.
pub proof fn lemma_differing_ids_render_with_slashes(p: PodSecurityPosture)
    requires
        !(p.user == p.group && p.group == p.fs_group),
    ensures
        uid_summary(p) == decimal(p.user) + seq!['/'] + decimal(p.group) + seq!['/'] + decimal(
            p.fs_group,
        ),
        uid_summary(p).contains('/'),
{
    let s = uid_summary(p);
    assert(s[decimal(p.user).len() as int] == '/');
}

/// The marker for `runAsNonRoot`.
pub open spec fn non_root_marker(run_as_non_root: bool) -> Seq<char> {
    if run_as_non_root {
        seq!['R', '\u{2705}']
    } else {
        seq!['R', '\u{1f62d}']
    }
}

/// The marker for a seccomp profile: nothing where none is configured,
/// else the seccomp glyph, the runtime-default glyph where the profile is
/// the runtime's default, and a space.
pub open spec fn seccomp_marker(enabled: bool, runtime_default: bool) -> Seq<char> {
    if !enabled {
        Seq::empty()
    } else if runtime_default {
        seq!['\u{1f46e}', '\u{2699}', '\u{fe0f}', ' ']
    } else {
        seq!['\u{1f46e}', ' ']
    }
}

/// The symbolic encoding of a pod-level posture.
pub open spec fn pod_bits(p: PodSecurityPosture) -> Seq<char> {
    non_root_marker(p.run_as_non_root) + seccomp_marker(
        p.seccomp_enabled,
        p.seccomp_is_runtime_default,
    ) + uid_summary(p)
}

/// The texts of the strings among `items`, in order; other elements are
/// passed over.
pub open spec fn strings_among(items: Seq<JsonValue>) -> Seq<Seq<char>>
    decreases items.len(),
{
    if items.len() == 0 {
        Seq::empty()
    } else {
        let earlier = strings_among(items.drop_last());
        match items.last().as_text() {
            Some(text) => earlier.push(text),
            None => earlier,
        }
    }
}

/// The capability names listed under `key` of a capabilities block.
pub open spec fn capability_names(block: JsonValue, key: Seq<char>) -> Seq<Seq<char>> {
    match block.at(key).as_items() {
        Some(items) => strings_among(items),
        None => Seq::empty(),
    }
}

/// The posture that a container-level security context configures.
/// Privilege escalation is allowed unless the context says otherwise.
pub open spec fn container_posture(doc: JsonValue) -> ContainerSecurityPosture {
    let block = doc.at("capabilities"@);
    let configured = block is Object;
    ContainerSecurityPosture {
        allow_privilege_escalation: match doc.at("allowPrivilegeEscalation"@).as_bool() {
            Some(allowed) => allowed,
            None => true,
        },
        capabilities_configured: configured,
        read_only_filesystem: false,
        dropped: if configured {
            capability_names(block, "drop"@)
        } else {
            Seq::empty()
        },
        added: if configured {
            capability_names(block, "add"@)
        } else {
            Seq::empty()
        },
    }
}

/// Whether a container drops all capabilities: it declares a capabilities
/// block that drops exactly `ALL` and adds nothing.
pub open spec fn drops_all(p: ContainerSecurityPosture) -> bool {
    &&& p.capabilities_configured
    &&& p.dropped.len() == 1
    &&& p.added.len() == 0
    &&& p.dropped[0] == seq!['A', 'L', 'L']
}

/// The symbolic encoding of a container-level posture.
pub open spec fn container_bits(p: ContainerSecurityPosture) -> Seq<char> {
    (if p.allow_privilege_escalation {
        seq!['\u{241b}', ' ']
    } else {
        seq!['\u{1f510}']
    }) + (if drops_all(p) {
        seq!['\u{1faf3}']
    } else {
        Seq::empty()
    })
}

/// How a boolean reads in a description.
pub open spec fn bool_text(b: bool) -> Seq<char> {
    if b {
        "true"@
    } else {
        "false"@
    }
}

/// A list of texts in the debug rendering of a vector of strings.
pub uninterp spec fn debug_listed(items: Seq<Seq<char>>) -> Seq<char>;

/// The description of a container-level posture, for a reader who wants
/// the fields rather than the glyphs.
pub open spec fn container_description(p: ContainerSecurityPosture) -> Seq<char> {
    "allowpriv "@ + bool_text(p.allow_privilege_escalation) + ", readonlyfs "@ + bool_text(
        p.read_only_filesystem,
    ) + ", is dropping "@ + bool_text(p.capabilities_configured) + ".\n    dropping: "@
        + debug_listed(p.dropped) + "/adding: "@ + debug_listed(p.added)
}

/// The description of a pod-level posture.
pub open spec fn pod_description(p: PodSecurityPosture) -> Seq<char> {
    "My user is "@ + uid_summary(p) + "."@
}

/// Renders a list of strings for a description.
///
/// Trusted: the `Debug` rendering of a `Vec<String>`, as `format!` gives
/// it. The text depends on the strings alone.
#[verifier::external_body]
fn debug_list(items: &Vec<String>) -> (r: String)
    ensures
        r@ == debug_listed(texts(items@)),
{
    format!("{:?}", items)
}

/// Appends how a boolean reads.
fn push_bool(out: &mut String, b: bool)
    ensures
        final(out)@ == old(out)@ + bool_text(b),
{
    if b {
        out.append("true");
    } else {
        out.append("false");
    }
}

/// The strings among the elements of `items`, in order.
fn collect_strings(items: &Vec<Json>) -> (r: Vec<String>)
    ensures
        texts(r@) == strings_among(views(items@)),
{
    let mut found: Vec<String> = Vec::new();
    let mut i: usize = 0;
    assert(views(items@).take(0) =~= Seq::<JsonValue>::empty());
    assert(texts(found@) =~= Seq::<Seq<char>>::empty());
    while i < items.len()
        invariant
            i <= items.len(),
            texts(found@) == strings_among(views(items@).take(i as int)),
        decreases items.len() - i,
    {
        let ghost before = views(items@).take(i as int);
        let ghost after = views(items@).take(i + 1);
        assert(after.drop_last() =~= before);
        assert(after.last() == items@[i as int]@);
        let ghost old_found = found@;
        match items[i].as_str() {
            Some(name) => {
                found.push(name.clone());
                assert(texts(found@) =~= texts(old_found).push(name@));
            },
            None => {},
        }
        i += 1;
    }
    assert(views(items@).take(i as int) =~= views(items@));
    found
}

/// The capability names listed under `key` of a capabilities block.
fn capability_list(block: &Json, key: &str) -> (r: Vec<String>)
    ensures
        texts(r@) == capability_names(block@, key@),
{
    let listed = match block.get(key) {
        Some(value) => value.as_array(),
        None => None,
    };
    match listed {
        Some(items) => collect_strings(items),
        None => {
            let none: Vec<String> = Vec::new();
            assert(texts(none@) =~= Seq::<Seq<char>>::empty());
            none
        },
    }
}

/// The security posture of one container.
pub struct ContainerSecurityContext {
    allowpriv: bool,
    dropping: bool,
    readonlyfs: bool,
    drops: Vec<String>,
    adds: Vec<String>,
}

impl View for ContainerSecurityContext {
    type V = ContainerSecurityPosture;

    closed spec fn view(&self) -> ContainerSecurityPosture {
        ContainerSecurityPosture {
            allow_privilege_escalation: self.allowpriv,
            capabilities_configured: self.dropping,
            read_only_filesystem: self.readonlyfs,
            dropped: texts(self.drops@),
            added: texts(self.adds@),
        }
    }
}

impl ContainerSecurityContext {
    /// Classifies a container-level security context.
    pub fn new(someinput: &Json) -> (r: ContainerSecurityContext)
        ensures
            r@ == container_posture(someinput@),
    {
        let mut has_allow_privesc: bool = true;
        let mut has_dropping: bool = false;
        let mut caps_we_drop: Vec<String> = Vec::new();
        let mut caps_we_add: Vec<String> = Vec::new();
        assert(texts(caps_we_drop@) =~= Seq::<Seq<char>>::empty());
        assert(texts(caps_we_add@) =~= Seq::<Seq<char>>::empty());

        if let Some(value) = someinput.get("allowPrivilegeEscalation") {
            if let Some(allowed) = value.as_bool() {
                has_allow_privesc = allowed;
            }
        }
        if let Some(block) = someinput.get("capabilities") {
            if block.is_object() {
                has_dropping = true;
                caps_we_drop = capability_list(block, "drop");
                caps_we_add = capability_list(block, "add");
            }
        }
        ContainerSecurityContext {
            allowpriv: has_allow_privesc,
            readonlyfs: false,
            dropping: has_dropping,
            drops: caps_we_drop,
            adds: caps_we_add,
        }
    }

    /// Whether the container drops all capabilities.
    pub fn dropping_all(&self) -> (r: bool)
        ensures
            r == drops_all(self@),
    {
        proof {
            reveal_strlit("ALL");
            assert("ALL"@ =~= seq!['A', 'L', 'L']);
        }
        self.dropping && self.drops.len() == 1 && self.adds.len() == 0 && text_is(
            &self.drops[0],
            "ALL",
        )
    }

    /// The fields of the posture, spelled out.
    pub fn describe(&self) -> (r: String)
        ensures
            r@ == container_description(self@),
    {
        let mut out = String::new();
        out.append("allowpriv ");
        push_bool(&mut out, self.allowpriv);
        out.append(", readonlyfs ");
        push_bool(&mut out, self.readonlyfs);
        out.append(", is dropping ");
        push_bool(&mut out, self.dropping);
        out.append(".\n    dropping: ");
        out.append(debug_list(&self.drops).as_str());
        out.append("/adding: ");
        out.append(debug_list(&self.adds).as_str());
        assert(out@ =~= container_description(self@));
        out
    }

    /// The symbolic encoding of the posture.
    pub fn getsecbits(&self) -> (r: String)
        ensures
            r@ == container_bits(self@),
    {
        proof {
            reveal_strlit("\u{1f510}");
            reveal_strlit("\u{241b} ");
            reveal_strlit("\u{1faf3}");
        }
        let mut output = String::new();
        if !self.allowpriv {
            output.append("\u{1f510}");
        } else {
            output.append("\u{241b} ");
        }
        if self.dropping_all() {
            output.append("\u{1faf3}");
        }
        assert(output@ =~= container_bits(self@));
        output
    }
}

/// The security posture of a pod.
pub struct PodSecurityContext {
    user: i64,
    group: i64,
    fsgroup: i64,
    runasnonroot: bool,
    seccomp: bool,
    seccomp_runtimedef: bool,
}

impl View for PodSecurityContext {
    type V = PodSecurityPosture;

    closed spec fn view(&self) -> PodSecurityPosture {
        PodSecurityPosture {
            user: self.user as int,
            group: self.group as int,
            fs_group: self.fsgroup as int,
            run_as_non_root: self.runasnonroot,
            seccomp_enabled: self.seccomp,
            seccomp_is_runtime_default: self.seccomp_runtimedef,
        }
    }
}

/// The integer member `key` of `doc`, or 0.
fn read_id(doc: &Json, key: &str) -> (r: i64)
    ensures
        r == id_or_zero(doc@, key@),
{
    match doc.get(key) {
        Some(value) => match value.as_i64() {
            Some(id) => id,
            None => 0,
        },
        None => 0,
    }
}

impl PodSecurityContext {
    /// Whether `new` can classify this pod-level security context.
    pub fn accepts(someinput: &Json) -> (r: bool)
        ensures
            r == pod_context_accepted(someinput@),
    {
        match someinput.get("seccompProfile") {
            Some(profile) => {
                if !profile.is_object() {
                    false
                } else {
                    match profile.get("type") {
                        Some(kind) => kind.as_str().is_some(),
                        None => true,
                    }
                }
            },
            None => true,
        }
    }

    /// Classifies a pod-level security context.
    pub fn new(someinput: &Json) -> (r: PodSecurityContext)
        requires
            pod_context_accepted(someinput@),
        ensures
            r@ == pod_posture(someinput@),
    {
        let mut seccomp = false;
        let mut seccomp_runtimedef = false;
        let mut runasnonroot: bool = false;

        let user = read_id(someinput, "runAsUser");
        let fsgroup = read_id(someinput, "fsGroup");
        let group = read_id(someinput, "runAsGroup");

        if let Some(profile) = someinput.get("seccompProfile") {
            seccomp = true;
            if let Some(kind) = profile.get("type") {
                if let Some(name) = kind.as_str() {
                    seccomp_runtimedef = text_is(name, "RuntimeDefault");
                }
            }
        }
        if let Some(value) = someinput.get("runAsNonRoot") {
            if let Some(flag) = value.as_bool() {
                runasnonroot = flag;
            }
        }
        PodSecurityContext { user, group, fsgroup, runasnonroot, seccomp, seccomp_runtimedef }
    }

    /// Classifies a pod-level security context, where it can be
    /// classified; one that cannot is malformed input.
    pub fn classify(someinput: &Json) -> (r: Result<PodSecurityContext, ReportError>)
        ensures
            pod_context_accepted(someinput@) ==> (r matches Ok(context) && context@ == pod_posture(
                someinput@,
            )),
            !pod_context_accepted(someinput@) ==> r matches Err(ReportError::MalformedInput),
    {
        if PodSecurityContext::accepts(someinput) {
            Ok(PodSecurityContext::new(someinput))
        } else {
            Err(ReportError::MalformedInput)
        }
    }

    /// Whether user, group and filesystem group are one and the same id.
    pub fn sameuid(&self) -> (r: bool)
        ensures
            r == (self@.user == self@.group && self@.group == self@.fs_group),
    {
        self.user == self.group && self.group == self.fsgroup && self.user == self.fsgroup
    }

    /// The effective ids: one number where the three agree, else the
    /// three joined by slashes.
    pub fn printuid(&self) -> (r: String)
        ensures
            r@ == uid_summary(self@),
    {
        proof {
            reveal_strlit("/");
        }
        let mut output = String::new();
        push_decimal(&mut output, self.user);
        if !self.sameuid() {
            output.append("/");
            push_decimal(&mut output, self.group);
            output.append("/");
            push_decimal(&mut output, self.fsgroup);
        }
        assert(output@ =~= uid_summary(self@));
        output
    }

    /// The effective ids, in a sentence.
    pub fn describe(&self) -> (r: String)
        ensures
            r@ == pod_description(self@),
    {
        let mut out = String::new();
        out.append("My user is ");
        out.append(self.printuid().as_str());
        out.append(".");
        assert(out@ =~= pod_description(self@));
        out
    }

    /// The symbolic encoding of the posture.
    pub fn getsecbits(&self) -> (r: String)
        ensures
            r@ == pod_bits(self@),
    {
        proof {
            reveal_strlit("R\u{2705}");
            reveal_strlit("R\u{1f62d}");
            reveal_strlit("\u{1f46e}");
            reveal_strlit("\u{2699}\u{fe0f}");
            reveal_strlit(" ");
        }
        let mut output = String::new();
        if self.runasnonroot {
            output.append("R\u{2705}");
        } else {
            output.append("R\u{1f62d}");
        }
        assert(output@ =~= non_root_marker(self@.run_as_non_root));
        if self.seccomp {
            output.append("\u{1f46e}");
            if self.seccomp_runtimedef {
                output.append("\u{2699}\u{fe0f}");
            }
            output.append(" ");
        }
        assert(output@ =~= non_root_marker(self@.run_as_non_root) + seccomp_marker(
            self@.seccomp_enabled,
            self@.seccomp_is_runtime_default,
        ));
        let uid = self.printuid();
        output.append(uid.as_str());
        assert(output@ =~= pod_bits(self@));
        output
    }
}

} // verus!
