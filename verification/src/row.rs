//! The row synthesizer: one report row per pod that the name filter
//! keeps, in the order of the pod list.

use crate::age::{age_text, fine_units, AgeFormat, Instant};
use crate::error::ReportError;
use crate::images::{
    image_list, normalize_image, normalized, render_image_list, rule_views, rules_compile,
    RenameRule, Rule, RuleSet,
};
use crate::json::{member_of, parse_document, parsed_json, views, Json, JsonValue};
use crate::pattern::{compile, matches_in, pattern_compiles, pattern_matches, regex_source};
use crate::security::{
    container_bits, container_posture, pod_bits, pod_context_accepted, pod_posture,
    ContainerSecurityContext, PodSecurityContext,
};
use crate::status::{
    entry_views, extract_statuses, merged_status, ready_fraction, render_ready_fraction,
    resolve_status, restart_total, status_entries, statuses_readable, total_restarts,
};
use crate::text::texts;
use vstd::prelude::*;

verus! {

/// One row of the report.
pub struct PodRow {
    pub name: Seq<char>,
    pub ready: Seq<char>,
    pub status: Seq<char>,
    pub restarts: int,
    pub age: Seq<char>,
    pub security_bits: Seq<char>,
    pub images: Seq<char>,
}

/// One row of the report, as it is handed to the presenter.
#[derive(Debug, PartialEq, Eq)]
pub struct Pod {
    pub name: String,
    pub containerstatus: String,
    pub status: String,
    pub restarts: i64,
    pub age: String,
    pub securitybits: String,
    pub images: String,
}

impl View for Pod {
    type V = PodRow;

    open spec fn view(&self) -> PodRow {
        PodRow {
            name: self.name@,
            ready: self.containerstatus@,
            status: self.status@,
            restarts: self.restarts as int,
            age: self.age@,
            security_bits: self.securitybits@,
            images: self.images@,
        }
    }
}

/// The rows of a sequence of pods.
pub open spec fn row_views(rows: Seq<Pod>) -> Seq<PodRow> {
    Seq::new(rows.len(), |i: int| rows[i]@)
}

/// Assembles a row from its fields.
pub fn build_pod(
    name: String,
    containerstatus: String,
    status: String,
    restarts: i64,
    age: String,
    securitybits: String,
    images: String,
) -> (r: Pod)
    ensures
        r.name == name,
        r.containerstatus == containerstatus,
        r.status == status,
        r.restarts == restarts,
        r.age == age,
        r.securitybits == securitybits,
        r.images == images,
{
    Pod { name, containerstatus, status, restarts, age, securitybits, images }
}

/// The name of a pod, where it has one.
pub open spec fn pod_name(pod: JsonValue) -> Option<Seq<char>> {
    pod.at("metadata"@).at("name"@).as_text()
}

/// The image reference of a container, where it has one.
pub open spec fn container_image(container: JsonValue) -> Option<Seq<char>> {
    container.at("image"@).as_text()
}

/// Whether every container names its image.
pub open spec fn images_readable(containers: Seq<JsonValue>) -> bool {
    forall|i: int| 0 <= i < containers.len() ==> (#[trigger] container_image(containers[i])) is Some
}

/// The normalized image references of the containers, in order.
pub open spec fn normalized_images(containers: Seq<JsonValue>, rules: Seq<Rule>) -> Seq<Seq<char>> {
    Seq::new(containers.len(), |i: int| normalized(container_image(containers[i])->0, rules))
}

/// The security context of the first container that declares one.
pub open spec fn first_context(containers: Seq<JsonValue>) -> Option<JsonValue>
    decreases containers.len(),
{
    if containers.len() == 0 {
        None
    } else if containers[0].at("securityContext"@) is Object {
        Some(containers[0].at("securityContext"@))
    } else {
        first_context(containers.drop_first())
    }
}

/// The container's part of the security bits: the encoding of the first
/// container that declares a security context, nothing where none does.
pub open spec fn container_part(containers: Seq<JsonValue>) -> Seq<char> {
    match first_context(containers) {
        Some(context) => container_bits(container_posture(context)),
        None => Seq::empty(),
    }
}

/// The pod-level security context of a pod. One that is absent, or no
/// object, configures nothing, so every field of the posture has its
/// default.
pub open spec fn pod_context(pod: JsonValue) -> JsonValue {
    pod.at("spec"@).at("securityContext"@)
}

/// The parts of a pod that a row is made from, where the pod has them
/// all with the right types.
pub struct PodParts {
    pub name: Seq<char>,
    pub statuses: Seq<JsonValue>,
    pub phase: Seq<char>,
    pub created: Seq<char>,
    pub containers: Seq<JsonValue>,
}

/// The required fields of a pod: its name, its container-status list,
/// its phase, its creation timestamp and its container list.
pub open spec fn pod_parts(pod: JsonValue) -> Option<PodParts> {
    let name = pod_name(pod);
    let statuses = pod.at("status"@).at("containerStatuses"@).as_items();
    let phase = pod.at("status"@).at("phase"@).as_text();
    let created = pod.at("metadata"@).at("creationTimestamp"@).as_text();
    let containers = pod.at("spec"@).at("containers"@).as_items();
    if name is Some && statuses is Some && phase is Some && created is Some && containers is Some {
        Some(
            PodParts {
                name: name->0,
                statuses: statuses->0,
                phase: phase->0,
                created: created->0,
                containers: containers->0,
            },
        )
    } else {
        None
    }
}

/// Whether a pod can be summarized: it has the required fields, every
/// container status gives a restart count, the restart counts have a
/// total, the creation timestamp gives an age, every container names its
/// image, and the pod-level security context can be classified.
pub open spec fn pod_well_formed(pod: JsonValue, now: Instant) -> bool {
    &&& pod_parts(pod) matches Some(parts)
    &&& statuses_readable(parts.statuses)
    &&& restart_total(status_entries(parts.statuses)) is Ok
    &&& age_text(parts.created, now) is Ok
    &&& images_readable(parts.containers)
    &&& pod_context_accepted(pod_context(pod))
}

/// The row of a pod that can be summarized.
pub open spec fn row_of(pod: JsonValue, rules: Seq<Rule>, now: Instant) -> PodRow {
    let parts = pod_parts(pod)->0;
    let entries = status_entries(parts.statuses);
    PodRow {
        name: parts.name,
        ready: ready_fraction(entries),
        status: merged_status(parts.phase, entries),
        restarts: restart_total(entries)->Ok_0 as int,
        age: age_text(parts.created, now)->Ok_0,
        security_bits: container_part(parts.containers) + pod_bits(pod_posture(pod_context(pod))),
        images: image_list(normalized_images(parts.containers, rules)),
    }
}

/// The row of a pod, or malformed input where the pod cannot be
/// summarized.
pub open spec fn pod_row(pod: JsonValue, rules: Seq<Rule>, now: Instant) -> Result<
    PodRow,
    ReportError,
> {
    if pod_well_formed(pod, now) {
        Ok(row_of(pod, rules, now))
    } else {
        Err(ReportError::MalformedInput)
    }
}

/// What a run is configured with: the pattern of the name filter, if
/// pods are filtered, and the rename rules in the order of their
/// priority.
pub struct Settings {
    pub filter: Option<Seq<char>>,
    pub rules: Seq<Rule>,
}

/// Whether the name filter keeps a pod of this name: without a filter
/// every pod is kept, else those in whose name the pattern matches.
pub open spec fn keeps(filter: Option<Seq<char>>, name: Seq<char>) -> bool {
    match filter {
        Some(pattern) => pattern_matches(pattern, name),
        None => true,
    }
}

/// The rows of a list of pods, in the order of the list. A pod needs a
/// name; a pod that the filter drops needs nothing else and gives no row;
/// one malformed pod among the others makes the whole list malformed.
pub open spec fn rows_of(pods: Seq<JsonValue>, settings: Settings, now: Instant) -> Result<
    Seq<PodRow>,
    ReportError,
>
    decreases pods.len(),
{
    if pods.len() == 0 {
        Ok(Seq::empty())
    } else {
        match rows_of(pods.drop_last(), settings, now) {
            Err(e) => Err(e),
            Ok(rows) => match pod_name(pods.last()) {
                None => Err(ReportError::MalformedInput),
                Some(name) => if !keeps(settings.filter, name) {
                    Ok(rows)
                } else {
                    match pod_row(pods.last(), settings.rules, now) {
                        Ok(row) => Ok(rows.push(row)),
                        Err(e) => Err(e),
                    }
                },
            },
        }
    }
}

/// The pods of a list that the name filter keeps, in the order of the
/// list.
pub open spec fn kept_pods(pods: Seq<JsonValue>, filter: Option<Seq<char>>) -> Seq<JsonValue> {
    pods.filter(|pod: JsonValue| pod_name(pod) matches Some(name) && keeps(filter, name))
}

/// Where a list of pods gives rows, every pod of the list has a name,
/// and the rows are those of the pods that the filter keeps: one row for
/// each, in the order of the list.
pub proof fn lemma_rows_follow_the_list(pods: Seq<JsonValue>, settings: Settings, now: Instant)
    requires
        rows_of(pods, settings, now) is Ok,
    ensures
        forall|i: int| 0 <= i < pods.len() ==> (#[trigger] pod_name(pods[i])) is Some,
        rows_of(pods, settings, now)->Ok_0.len() == kept_pods(pods, settings.filter).len(),
        forall|k: int|
            0 <= k < kept_pods(pods, settings.filter).len() ==> pod_row(
                #[trigger] kept_pods(pods, settings.filter)[k],
                settings.rules,
                now,
            ) == Ok::<PodRow, ReportError>(rows_of(pods, settings, now)->Ok_0[k]),
    decreases pods.len(),
{
    reveal(Seq::filter);
    if pods.len() > 0 {
        let earlier = pods.drop_last();
        lemma_rows_follow_the_list(earlier, settings, now);
        assert forall|i: int| 0 <= i < pods.len() implies (#[trigger] pod_name(pods[i])) is Some by {
            if i < pods.len() - 1 {
                assert(earlier[i] == pods[i]);
            }
        }
    }
}

/// Without a name filter a list of pods gives one row for each pod, in
/// the order of the list.
pub proof fn lemma_unfiltered_rows_match_the_list(
    pods: Seq<JsonValue>,
    rules: Seq<Rule>,
    now: Instant,
)
    requires
        rows_of(pods, Settings { filter: None, rules }, now) is Ok,
    ensures
        rows_of(pods, Settings { filter: None, rules }, now)->Ok_0.len() == pods.len(),
        forall|i: int|
            0 <= i < pods.len() ==> pod_row(#[trigger] pods[i], rules, now) == Ok::<
                PodRow,
                ReportError,
            >(rows_of(pods, Settings { filter: None, rules }, now)->Ok_0[i]),
    decreases pods.len(),
{
    if pods.len() > 0 {
        let earlier = pods.drop_last();
        lemma_unfiltered_rows_match_the_list(earlier, rules, now);
        let rows = rows_of(pods, Settings { filter: None, rules }, now)->Ok_0;
        assert forall|i: int| 0 <= i < pods.len() implies pod_row(#[trigger] pods[i], rules, now)
            == Ok::<PodRow, ReportError>(rows[i]) by {
            if i < pods.len() - 1 {
                assert(earlier[i] == pods[i]);
            }
        }
    }
}

/// The rows of a pod-list document: those of its `items`; no rows where
/// the document has no such list.
pub open spec fn document_rows(document: JsonValue, settings: Settings, now: Instant) -> Result<
    Seq<PodRow>,
    ReportError,
> {
    match document.at("items"@).as_items() {
        Some(pods) => rows_of(pods, settings, now),
        None => Ok(Seq::empty()),
    }
}

/// Whether a row, as the synthesizer returned it, is the one that the
/// model gives.
pub open spec fn row_is(r: Result<Pod, ReportError>, expected: Result<PodRow, ReportError>) -> bool {
    match expected {
        Ok(row) => r matches Ok(pod) && pod@ == row,
        Err(e) => r == Err::<Pod, ReportError>(e),
    }
}

/// Whether rows, as the synthesizer returned them, are those that the
/// model gives.
pub open spec fn rows_are(
    r: Result<Vec<Pod>, ReportError>,
    expected: Result<Seq<PodRow>, ReportError>,
) -> bool {
    match expected {
        Ok(rows) => r matches Ok(pods) && row_views(pods@) == rows,
        Err(e) => r == Err::<Vec<Pod>, ReportError>(e),
    }
}

/// The settings that a name filter and a list of rename rules describe:
/// an empty filter text filters nothing.
pub open spec fn settings_of(name_filter: Seq<char>, rules: Seq<Rule>) -> Settings {
    Settings {
        filter: if name_filter.len() == 0 {
            None
        } else {
            Some(name_filter)
        },
        rules,
    }
}

/// Whether every pattern of a run compiles: that of the name filter,
/// where there is one, those of the rename rules, and the formatter's own.
pub open spec fn settings_valid(settings: Settings) -> bool {
    &&& settings.filter matches Some(pattern) ==> pattern_compiles(pattern)
    &&& rules_compile(settings.rules)
    &&& pattern_compiles(fine_units())
}

/// The row synthesizer, with every pattern of the run compiled.
pub struct Synthesizer {
    filter: Option<regex::Regex>,
    rules: RuleSet,
    ages: AgeFormat,
}

impl View for Synthesizer {
    type V = Settings;

    closed spec fn view(&self) -> Settings {
        Settings {
            filter: match self.filter {
                Some(expression) => Some(regex_source(expression)),
                None => None,
            },
            rules: self.rules@,
        }
    }
}

impl Synthesizer {
    /// Compiles the patterns of a run. An empty filter text filters
    /// nothing. One pattern that is no regular expression is an invalid
    /// rule.
    pub fn new(name_filter: &str, rules: &Vec<RenameRule>) -> (r: Result<Synthesizer, ReportError>)
        ensures
            settings_valid(settings_of(name_filter@, rule_views(rules@))) ==> (r matches Ok(s) && s@
                == settings_of(name_filter@, rule_views(rules@))),
            !settings_valid(settings_of(name_filter@, rule_views(rules@))) ==> r == Err::<
                Synthesizer,
                ReportError,
            >(ReportError::InvalidRule),
    {
        let filter = if name_filter.is_empty() {
            None
        } else {
            match compile(name_filter) {
                Some(expression) => Some(expression),
                None => {
                    return Err(ReportError::InvalidRule);
                },
            }
        };
        let rules = match RuleSet::compile(rules) {
            Ok(set) => set,
            Err(_) => {
                return Err(ReportError::InvalidRule);
            },
        };
        let ages = match AgeFormat::new() {
            Ok(format) => format,
            Err(_) => {
                return Err(ReportError::InvalidRule);
            },
        };
        Ok(Synthesizer { filter, rules, ages })
    }

    /// Whether the name filter keeps a pod of this name.
    pub fn keeps_name(&self, name: &str) -> (r: bool)
        ensures
            r == keeps(self@.filter, name@),
    {
        match &self.filter {
            Some(expression) => matches_in(expression, name),
            None => true,
        }
    }

    /// The normalized image reference of every container, in order;
    /// malformed input where a container does not name its image.
    fn container_images(&self, containers: &Vec<Json>) -> (r: Result<Vec<String>, ReportError>)
        ensures
            images_readable(views(containers@)) ==> (r matches Ok(images) && texts(images@)
                == normalized_images(views(containers@), self@.rules)),
            !images_readable(views(containers@)) ==> r == Err::<Vec<String>, ReportError>(
                ReportError::MalformedInput,
            ),
    {
        let ghost all = views(containers@);
        let mut images: Vec<String> = Vec::new();
        let mut i: usize = 0;
        while i < containers.len()
            invariant
                i <= containers.len(),
                images.len() == i,
                all == views(containers@),
                forall|k: int| 0 <= k < i ==> (#[trigger] container_image(all[k])) is Some,
                forall|k: int|
                    0 <= k < i ==> (#[trigger] images@[k])@ == normalized(
                        container_image(all[k])->0,
                        self@.rules,
                    ),
            decreases containers.len() - i,
        {
            assert(all[i as int] == containers@[i as int]@);
            let image = match member_of(Some(&containers[i]), "image") {
                Some(value) => value.as_str(),
                None => None,
            };
            match image {
                Some(reference) => {
                    images.push(normalize_image(reference.as_str(), &self.rules));
                },
                None => {
                    assert(container_image(all[i as int]) is None);
                    return Err(ReportError::MalformedInput);
                },
            }
            i += 1;
        }
        assert(texts(images@) =~= normalized_images(all, self@.rules));
        Ok(images)
    }

    /// The row of one pod.
    pub fn synthesize_row(&self, pod: &Json, now: Instant) -> (r: Result<Pod, ReportError>)
        ensures
            row_is(r, pod_row(pod@, self@.rules, now)),
    {
        let metadata = member_of(Some(pod), "metadata");
        let status = member_of(Some(pod), "status");
        let spec = member_of(Some(pod), "spec");
        let name = match member_of(metadata, "name") {
            Some(value) => value.as_str(),
            None => None,
        };
        let statuses = match member_of(status, "containerStatuses") {
            Some(value) => value.as_array(),
            None => None,
        };
        let phase = match member_of(status, "phase") {
            Some(value) => value.as_str(),
            None => None,
        };
        let created = match member_of(metadata, "creationTimestamp") {
            Some(value) => value.as_str(),
            None => None,
        };
        let containers = match member_of(spec, "containers") {
            Some(value) => value.as_array(),
            None => None,
        };
        let (name, statuses, phase, created, containers) = match (
            name,
            statuses,
            phase,
            created,
            containers,
        ) {
            (Some(name), Some(statuses), Some(phase), Some(created), Some(containers)) => (
                name,
                statuses,
                phase,
                created,
                containers,
            ),
            _ => {
                return Err(ReportError::MalformedInput);
            },
        };
        let ghost parts = pod_parts(pod@)->0;
        assert(parts.statuses == views(statuses@));
        assert(parts.containers == views(containers@));
        let entries = match extract_statuses(statuses) {
            Ok(entries) => entries,
            Err(_) => {
                return Err(ReportError::MalformedInput);
            },
        };
        let restarts = match total_restarts(&entries) {
            Ok(total) => total,
            Err(_) => {
                return Err(ReportError::MalformedInput);
            },
        };
        let age = match self.ages.render(created.as_str(), now) {
            Ok(age) => age,
            Err(_) => {
                return Err(ReportError::MalformedInput);
            },
        };
        let images = match self.container_images(containers) {
            Ok(images) => images,
            Err(_) => {
                return Err(ReportError::MalformedInput);
            },
        };
        let absent = Json::Null;
        let context = match member_of(spec, "securityContext") {
            Some(value) => value,
            None => &absent,
        };
        assert(context@ == pod_context(pod@));
        let pod_security = match PodSecurityContext::classify(context) {
            Ok(posture) => posture,
            Err(_) => {
                return Err(ReportError::MalformedInput);
            },
        };
        let mut security_bits = container_security_bits(containers);
        security_bits.append(pod_security.getsecbits().as_str());
        Ok(
            build_pod(
                name.clone(),
                render_ready_fraction(&entries),
                resolve_status(phase.as_str(), &entries),
                restarts,
                age,
                security_bits,
                render_image_list(&images),
            ),
        )
    }

    /// The rows of a list of pods, in the order of the list.
    pub fn synthesize_rows(&self, pods: &Vec<Json>, now: Instant) -> (r: Result<
        Vec<Pod>,
        ReportError,
    >)
        ensures
            rows_are(r, rows_of(views(pods@), self@, now)),
    {
        let ghost all = views(pods@);
        let mut rows: Vec<Pod> = Vec::new();
        let mut i: usize = 0;
        assert(all.take(0) =~= Seq::<JsonValue>::empty());
        assert(row_views(rows@) =~= Seq::<PodRow>::empty());
        while i < pods.len()
            invariant
                i <= pods.len(),
                all == views(pods@),
                rows_of(all.take(i as int), self@, now) == Ok::<Seq<PodRow>, ReportError>(
                    row_views(rows@),
                ),
            decreases pods.len() - i,
        {
            assert(all.take(i + 1).drop_last() =~= all.take(i as int));
            assert(all.take(i + 1).last() == pods@[i as int]@);
            proof {
                lemma_rows_stay_failed(all, i + 1, self@, now);
            }
            let name = match member_of(member_of(Some(&pods[i]), "metadata"), "name") {
                Some(value) => value.as_str(),
                None => None,
            };
            let name = match name {
                Some(name) => name,
                None => {
                    return Err(ReportError::MalformedInput);
                },
            };
            if self.keeps_name(name.as_str()) {
                let ghost before = row_views(rows@);
                match self.synthesize_row(&pods[i], now) {
                    Ok(row) => {
                        rows.push(row);
                        assert(row_views(rows@) =~= before.push(row@));
                    },
                    Err(e) => {
                        return Err(e);
                    },
                }
            }
            i += 1;
        }
        assert(all.take(i as int) =~= all);
        Ok(rows)
    }

    /// The rows of a pod-list document: those of its `items`.
    pub fn synthesize(&self, document: &Json, now: Instant) -> (r: Result<Vec<Pod>, ReportError>)
        ensures
            rows_are(r, document_rows(document@, self@, now)),
    {
        let items = match member_of(Some(document), "items") {
            Some(value) => value.as_array(),
            None => None,
        };
        match items {
            Some(pods) => self.synthesize_rows(pods, now),
            None => {
                let rows: Vec<Pod> = Vec::new();
                assert(row_views(rows@) =~= Seq::<PodRow>::empty());
                Ok(rows)
            },
        }
    }
}

/// The report of a run: an invalid rule where a pattern of the run does
/// not compile; else malformed input where the text is not JSON; else
/// the rows of the document that the text denotes.
pub open spec fn report_rows(
    text: Seq<char>,
    name_filter: Seq<char>,
    rules: Seq<Rule>,
    now: Instant,
) -> Result<Seq<PodRow>, ReportError> {
    let settings = settings_of(name_filter, rules);
    if !settings_valid(settings) {
        Err(ReportError::InvalidRule)
    } else {
        match parsed_json(text) {
            Some(document) => document_rows(document, settings, now),
            None => Err(ReportError::MalformedInput),
        }
    }
}

/// Summarizes the pods of a pod list, given as JSON text, into report
/// rows, as seen at `now`.
pub fn report(text: &str, name_filter: &str, rules: &Vec<RenameRule>, now: Instant) -> (r: Result<
    Vec<Pod>,
    ReportError,
>)
    ensures
        rows_are(r, report_rows(text@, name_filter@, rule_views(rules@), now)),
{
    let synthesizer = match Synthesizer::new(name_filter, rules) {
        Ok(synthesizer) => synthesizer,
        Err(_) => {
            return Err(ReportError::InvalidRule);
        },
    };
    let document = match parse_document(text) {
        Ok(document) => document,
        Err(_) => {
            return Err(ReportError::MalformedInput);
        },
    };
    synthesizer.synthesize(&document, now)
}

/// Once the pods up to some point make a list malformed, the whole list
/// is malformed in the same way.
proof fn lemma_rows_stay_failed(pods: Seq<JsonValue>, n: int, settings: Settings, now: Instant)
    requires
        0 <= n <= pods.len(),
    ensures
        rows_of(pods.take(n), settings, now) is Err ==> rows_of(pods, settings, now) == rows_of(
            pods.take(n),
            settings,
            now,
        ),
    decreases pods.len() - n,
{
    if n == pods.len() {
        assert(pods.take(n) =~= pods);
    } else {
        assert(pods.take(n + 1).drop_last() =~= pods.take(n));
        lemma_rows_stay_failed(pods, n + 1, settings, now);
    }
}

/// The container's part of the security bits.
pub fn container_security_bits(containers: &Vec<Json>) -> (r: String)
    ensures
        r@ == container_part(views(containers@)),
{
    let ghost all = views(containers@);
    let mut i: usize = 0;
    assert(all.skip(0) =~= all);
    while i < containers.len()
        invariant
            i <= containers.len(),
            all == views(containers@),
            first_context(all) == first_context(all.skip(i as int)),
        decreases containers.len() - i,
    {
        let ghost rest = all.skip(i as int);
        assert(rest[0] == containers@[i as int]@);
        assert(rest.drop_first() =~= all.skip(i + 1));
        match member_of(Some(&containers[i]), "securityContext") {
            Some(context) => {
                if context.is_object() {
                    return ContainerSecurityContext::new(context).getsecbits();
                }
            },
            None => {},
        }
        i += 1;
    }
    String::new()
}

} // verus!
