//! What a request returns, how a lockfile audit folds per-package results,
//! the cache key of a request, and the audit log's records.
use vstd::prelude::*;
use crate::config::strings_view;
use crate::json::{
    json_array_spec, json_bool_spec, json_string_spec, push_json_bool, push_json_string,
    push_json_string_array, push_json_u64,
};
use crate::model::{Metadata, Severity, max_severity, opt_str_view, opt_view, own_opt};
use crate::pipeline::CheckReport;
use crate::text::{append_str, contains_spec, contains_str, push_char};

verus! {

/// The decision returned for one package.
#[derive(Debug, Clone)]
pub struct ToolResponse {
    pub allow: bool,
    pub risk: Severity,
    pub reasons: Vec<String>,
    pub metadata: Metadata,
}

impl ToolResponse {
    pub fn from_report(report: CheckReport) -> (r: ToolResponse)
        ensures
            r.allow == report.allow,
            r.risk == report.risk,
            r.reasons == report.reasons,
            r.metadata == report.metadata,
    {
        ToolResponse {
            allow: report.allow,
            risk: report.risk,
            reasons: report.reasons,
            metadata: report.metadata,
        }
    }
}

/// One package of a lockfile audit.
#[derive(Debug, Clone)]
pub struct LockfilePackageResult {
    pub name: String,
    pub requested: Option<String>,
    pub allow: bool,
    pub risk: Severity,
    pub reasons: Vec<String>,
}

/// The result of a lockfile audit.
#[derive(Debug, Clone)]
pub struct LockfileResponse {
    pub allow: bool,
    pub risk: Severity,
    pub total: usize,
    pub denied: usize,
    pub packages: Vec<LockfilePackageResult>,
}

/// Text that marks a failure to write the audit log.
pub const AUDIT_LOG_FAILURE_CONTEXT: &'static str = "failed to append audit log record";

/// Whether an error message reports a failed audit-log write.
pub fn is_audit_log_failure(message: &str) -> (r: bool)
    ensures
        r == contains_spec(message@, AUDIT_LOG_FAILURE_CONTEXT@),
{
    contains_str(message, AUDIT_LOG_FAILURE_CONTEXT)
}

pub open spec fn failure_reason(message: Seq<char>) -> Seq<char> {
    "package check failed: "@ + message
}

/// Running totals of a lockfile audit.
pub struct LockfileAudit {
    pub risk: Severity,
    pub denied: usize,
    pub packages: Vec<LockfilePackageResult>,
}

impl LockfileAudit {
    pub open spec fn well_formed(&self) -> bool {
        &&& self.denied <= self.packages@.len()
        &&& forall|i: int| 0 <= i < self.packages@.len() ==> (#[trigger] self.packages@[i]).risk.rank()
            <= self.risk.rank()
    }

    pub fn new() -> (r: LockfileAudit)
        ensures
            r.well_formed(),
            r.risk == Severity::Low,
            r.denied == 0,
            r.packages@.len() == 0,
    {
        LockfileAudit { risk: Severity::Low, denied: 0, packages: Vec::new() }
    }

    /// Adds the decision for one dependency: the audit's risk becomes the
    /// larger of the two, and a denied package is counted.
    pub fn record_response(&mut self, name: String, requested: Option<String>, response: ToolResponse)
        requires
            old(self).well_formed(),
            old(self).packages@.len() < usize::MAX,
        ensures
            final(self).well_formed(),
            final(self).risk == max_severity(old(self).risk, response.risk),
            final(self).denied == old(self).denied + if response.allow {
                0int
            } else {
                1int
            },
            final(self).packages@.len() == old(self).packages@.len() + 1,
            final(self).packages@.last().name@ == name@,
            final(self).packages@.last().allow == response.allow,
            final(self).packages@.last().risk == response.risk,
            final(self).packages@.last().reasons == response.reasons,
            opt_view(final(self).packages@.last().requested) == opt_view(requested),
            final(self).packages@.drop_last() == old(self).packages@,
    {
        self.risk = self.risk.max_with(response.risk);
        if !response.allow {
            self.denied = self.denied + 1;
        }
        self.packages.push(
            LockfilePackageResult {
                name,
                requested,
                allow: response.allow,
                risk: response.risk,
                reasons: response.reasons,
            },
        );
        assert(self.packages@.drop_last() =~= old(self).packages@);
    }

    /// Adds a dependency whose evaluation failed: it is denied at critical
    /// risk, with the failure as its one reason.
    pub fn record_failure(&mut self, name: String, requested: Option<String>, message: &str)
        requires
            old(self).well_formed(),
            old(self).packages@.len() < usize::MAX,
        ensures
            final(self).well_formed(),
            final(self).risk == Severity::Critical,
            final(self).denied == old(self).denied + 1,
            final(self).packages@.len() == old(self).packages@.len() + 1,
            final(self).packages@.last().name@ == name@,
            !final(self).packages@.last().allow,
            final(self).packages@.last().risk == Severity::Critical,
            strings_view(final(self).packages@.last().reasons@) == seq![failure_reason(message@)],
            opt_view(final(self).packages@.last().requested) == opt_view(requested),
            final(self).packages@.drop_last() == old(self).packages@,
    {
        self.risk = Severity::Critical;
        self.denied = self.denied + 1;
        let mut reason = String::new();
        append_str(&mut reason, "package check failed: ");
        append_str(&mut reason, message);
        let mut reasons: Vec<String> = Vec::new();
        reasons.push(reason);
        assert(strings_view(reasons@) =~= seq![failure_reason(message@)]);
        self.packages.push(
            LockfilePackageResult {
                name,
                requested,
                allow: false,
                risk: Severity::Critical,
                reasons,
            },
        );
        assert(self.packages@.drop_last() =~= old(self).packages@);
    }

    /// The audit's result: allowed exactly when nothing was denied.
    pub fn finish(self) -> (r: LockfileResponse)
        requires
            self.well_formed(),
        ensures
            r.allow == (self.denied == 0),
            r.risk == self.risk,
            r.total == self.packages@.len(),
            r.denied == self.denied,
            r.packages == self.packages,
    {
        let total = self.packages.len();
        LockfileResponse {
            allow: self.denied == 0,
            risk: self.risk,
            total,
            denied: self.denied,
            packages: self.packages,
        }
    }
}

/// The cache key of a request: `check_package:`, then `scope:` unless the
/// scope is empty, then `registry:name@version`, with `latest` for a
/// missing version.
pub open spec fn cache_key_spec(
    scope: Seq<char>,
    registry: Seq<char>,
    name: Seq<char>,
    version: Option<Seq<char>>,
) -> Seq<char> {
    let head = if scope.len() == 0 {
        "check_package:"@
    } else {
        "check_package:"@ + scope + ":"@
    };
    head + registry + ":"@ + name + "@"@ + match version {
        Some(v) => v,
        None => "latest"@,
    }
}

pub fn cache_key_for_package(
    scope: &str,
    registry: &str,
    package_name: &str,
    requested_version: Option<&str>,
) -> (r: String)
    ensures
        r@ == cache_key_spec(scope@, registry@, package_name@, opt_str_view(requested_version)),
{
    let mut key = String::new();
    append_str(&mut key, "check_package:");
    if scope.unicode_len() > 0 {
        append_str(&mut key, scope);
        append_str(&mut key, ":");
    }
    append_str(&mut key, registry);
    append_str(&mut key, ":");
    append_str(&mut key, package_name);
    append_str(&mut key, "@");
    let version: &str = match requested_version {
        Some(v) => v,
        None => "latest",
    };
    append_str(&mut key, version);
    key
}

pub open spec fn join_keys(keys: Seq<&str>) -> Seq<char>
    decreases keys.len(),
{
    if keys.len() == 0 {
        seq![]
    } else if keys.len() == 1 {
        keys[0]@
    } else {
        join_keys(keys.drop_last()) + ", "@ + keys.last()@
    }
}

/// Keys joined by `, `.
pub fn join_keys_exec(keys: &[&str]) -> (r: String)
    ensures
        r@ == join_keys(keys@),
{
    let mut out = String::new();
    let mut i: usize = 0;
    while i < keys.len()
        invariant
            i <= keys@.len(),
            out@ == join_keys(keys@.take(i as int)),
        decreases keys@.len() - i,
    {
        assert(keys@.take(i + 1).drop_last() =~= keys@.take(i as int));
        if i > 0 {
            append_str(&mut out, ", ");
        }
        append_str(&mut out, keys[i]);
        i = i + 1;
        assert(i == 1 ==> out@ =~= keys@.take(1)[0]@);
    }
    assert(keys@.take(i as int) =~= keys@);
    out
}

/// The message for a registry key that is not offered.
pub fn invalid_registry_error(kind: &str, registry: &str, supported: &[&str]) -> (r: String)
    ensures
        r@ == "unsupported "@ + kind@ + " registry '"@ + registry@ + "'; supported registries: "@
            + join_keys(supported@),
{
    let mut out = String::new();
    append_str(&mut out, "unsupported ");
    append_str(&mut out, kind);
    append_str(&mut out, " registry '");
    append_str(&mut out, registry);
    append_str(&mut out, "'; supported registries: ");
    let joined = join_keys_exec(supported);
    append_str(&mut out, joined.as_str());
    out
}

/// The fields of one decision for the audit log.
pub struct PackageDecision<'a> {
    pub context: &'a str,
    pub package: &'a str,
    pub requested: Option<&'a str>,
    pub registry: &'a str,
    pub allow: bool,
    pub risk: Severity,
    pub reasons: Vec<String>,
    pub metadata: Option<Metadata>,
    pub cached: bool,
}

/// One line of the audit log.
#[derive(Debug, Clone)]
pub struct AuditRecord {
    pub timestamp: String,
    pub context: String,
    pub package: String,
    pub requested: Option<String>,
    pub registry: String,
    pub allow: bool,
    pub risk: Severity,
    pub reasons: Vec<String>,
    pub metadata: Option<Metadata>,
    pub cached: bool,
}

impl AuditRecord {
    /// The record of a decision, stamped with the current time.
    pub fn package_decision(input: PackageDecision) -> (r: AuditRecord)
        ensures
            r.context@ == input.context@,
            r.package@ == input.package@,
            opt_view(r.requested) == opt_str_view(input.requested),
            r.registry@ == input.registry@,
            r.allow == input.allow,
            r.risk == input.risk,
            r.reasons == input.reasons,
            r.metadata == input.metadata,
            r.cached == input.cached,
    {
        AuditRecord {
            timestamp: crate::clock::now_rfc3339(),
            context: input.context.to_owned(),
            package: input.package.to_owned(),
            requested: own_opt(input.requested),
            registry: input.registry.to_owned(),
            allow: input.allow,
            risk: input.risk,
            reasons: input.reasons,
            metadata: input.metadata,
            cached: input.cached,
        }
    }

    /// The record as one line of JSON, without the line break. Fields in
    /// order: timestamp, context, package, requested, registry, allow, risk,
    /// reasons, metadata, cached.
    pub fn to_json(&self) -> (r: String)
        ensures
            r@ == audit_json_spec(*self),
    {
        let mut out = String::new();
        push_char(&mut out, '{');
        append_str(&mut out, "\"timestamp\":");
        push_json_string(&mut out, self.timestamp.as_str());
        append_str(&mut out, ",\"context\":");
        push_json_string(&mut out, self.context.as_str());
        append_str(&mut out, ",\"package\":");
        push_json_string(&mut out, self.package.as_str());
        append_str(&mut out, ",\"requested\":");
        push_json_opt_string(&mut out, &self.requested);
        append_str(&mut out, ",\"registry\":");
        push_json_string(&mut out, self.registry.as_str());
        append_str(&mut out, ",\"allow\":");
        push_json_bool(&mut out, self.allow);
        append_str(&mut out, ",\"risk\":");
        push_json_string(&mut out, self.risk.as_str());
        append_str(&mut out, ",\"reasons\":");
        push_json_string_array(&mut out, &self.reasons);
        append_str(&mut out, ",\"metadata\":");
        match &self.metadata {
            Some(m) => push_metadata_json(&mut out, m),
            None => append_str(&mut out, "null"),
        }
        append_str(&mut out, ",\"cached\":");
        push_json_bool(&mut out, self.cached);
        push_char(&mut out, '}');
        assert(out@ =~= audit_json_spec(*self));
        out
    }
}

pub open spec fn json_opt_string_spec(v: Option<String>) -> Seq<char> {
    match v {
        Some(x) => json_string_spec(x@),
        None => "null"@,
    }
}

/// An audit record as one JSON object.
pub open spec fn audit_json_spec(r: AuditRecord) -> Seq<char> {
    seq!['{'] + "\"timestamp\":"@ + json_string_spec(r.timestamp@) + ",\"context\":"@
        + json_string_spec(r.context@) + ",\"package\":"@ + json_string_spec(r.package@)
        + ",\"requested\":"@ + json_opt_string_spec(r.requested) + ",\"registry\":"@
        + json_string_spec(r.registry@) + ",\"allow\":"@ + json_bool_spec(r.allow)
        + ",\"risk\":"@ + json_string_spec(r.risk.name_spec()) + ",\"reasons\":"@
        + json_array_spec(r.reasons@.map_values(|s: String| s@)) + ",\"metadata\":"@ + match r.metadata {
        Some(m) => metadata_json_spec(m),
        None => "null"@,
    } + ",\"cached\":"@ + json_bool_spec(r.cached) + seq!['}']
}

fn push_json_opt_string(out: &mut String, s: &Option<String>)
    ensures
        final(out)@ == old(out)@ + json_opt_string_spec(*s),
{
    match s {
        Some(v) => push_json_string(out, v.as_str()),
        None => append_str(out, "null"),
    }
}

pub open spec fn text_field(name: Seq<char>, v: Option<String>) -> Seq<Seq<char>> {
    match v {
        Some(x) => seq![seq!['"'] + name + seq!['"', ':'] + json_string_spec(x@)],
        None => seq![],
    }
}

pub open spec fn join_fields(fields: Seq<Seq<char>>) -> Seq<char>
    decreases fields.len(),
{
    if fields.len() == 0 {
        seq![]
    } else if fields.len() == 1 {
        fields[0]
    } else {
        join_fields(fields.drop_last()) + seq![','] + fields.last()
    }
}

/// Metadata as a JSON object: the fields that are present, in the order
/// latest, requested, published, weekly_downloads.
pub open spec fn metadata_json_spec(m: Metadata) -> Seq<char> {
    let fields = text_field("latest"@, m.latest) + text_field("requested"@, m.requested) + text_field(
        "published"@,
        m.published,
    ) + match m.weekly_downloads {
        Some(d) => seq!["\"weekly_downloads\":"@ + crate::text::decimal(d as nat)],
        None => seq![],
    };
    seq!['{'] + join_fields(fields) + seq!['}']
}

proof fn lemma_join_push(fields: Seq<Seq<char>>, f: Seq<char>)
    ensures
        join_fields(fields.push(f)) == if fields.len() == 0 {
            f
        } else {
            join_fields(fields) + seq![','] + f
        },
{
    assert(fields.push(f).drop_last() =~= fields);
}

fn push_field(out: &mut String, first: bool, name: &str, value: &str, Ghost(fields): Ghost<Seq<Seq<char>>>, Ghost(start): Ghost<Seq<char>>)
    requires
        old(out)@ == start + seq!['{'] + join_fields(fields),
        first == (fields.len() == 0),
    ensures
        final(out)@ == start + seq!['{'] + join_fields(
            fields.push(seq!['"'] + name@ + seq!['"', ':'] + json_string_spec(value@)),
        ),
{
    if !first {
        push_char(out, ',');
    }
    push_char(out, '"');
    crate::text::append_str(out, name);
    push_char(out, '"');
    push_char(out, ':');
    push_json_string(out, value);
    proof {
        lemma_join_push(fields, seq!['"'] + name@ + seq!['"', ':'] + json_string_spec(value@));
    }
    assert(final(out)@ =~= start + seq!['{'] + join_fields(
        fields.push(seq!['"'] + name@ + seq!['"', ':'] + json_string_spec(value@)),
    ));
}

/// Appends metadata as a JSON object; absent fields are left out.
#[verifier::rlimit(50)]
pub fn push_metadata_json(out: &mut String, m: &Metadata)
    ensures
        final(out)@ == old(out)@ + metadata_json_spec(*m),
{
    let ghost start = out@;
    push_char(out, '{');
    let ghost mut fields: Seq<Seq<char>> = seq![];
    assert(out@ =~= start + seq!['{'] + join_fields(fields));
    let mut first = true;
    match &m.latest {
        Some(v) => {
            push_field(out, first, "latest", v.as_str(), Ghost(fields), Ghost(start));
            proof {
                fields = fields.push(seq!['"'] + "latest"@ + seq!['"', ':'] + json_string_spec(v@));
            }
            first = false;
        },
        None => {},
    }
    assert(fields =~= text_field("latest"@, m.latest));
    let ghost f1 = fields;
    match &m.requested {
        Some(v) => {
            push_field(out, first, "requested", v.as_str(), Ghost(fields), Ghost(start));
            proof {
                fields = fields.push(seq!['"'] + "requested"@ + seq!['"', ':'] + json_string_spec(v@));
            }
            first = false;
        },
        None => {},
    }
    assert(fields =~= f1 + text_field("requested"@, m.requested));
    let ghost f2 = fields;
    match &m.published {
        Some(v) => {
            push_field(out, first, "published", v.as_str(), Ghost(fields), Ghost(start));
            proof {
                fields = fields.push(seq!['"'] + "published"@ + seq!['"', ':'] + json_string_spec(v@));
            }
            first = false;
        },
        None => {},
    }
    assert(fields =~= f2 + text_field("published"@, m.published));
    let ghost f3 = fields;
    match m.weekly_downloads {
        Some(d) => {
            if !first {
                push_char(out, ',');
            }
            crate::text::append_str(out, "\"weekly_downloads\":");
            push_json_u64(out, d);
            proof {
                let f = "\"weekly_downloads\":"@ + crate::text::decimal(d as nat);
                lemma_join_push(fields, f);
                fields = fields.push(f);
            }
            assert(out@ =~= start + seq!['{'] + join_fields(fields));
        },
        None => {},
    }
    assert(fields =~= f3 + match m.weekly_downloads {
        Some(d) => seq!["\"weekly_downloads\":"@ + crate::text::decimal(d as nat)],
        None => Seq::<Seq<char>>::empty(),
    });
    assert(fields =~= text_field("latest"@, m.latest) + text_field("requested"@, m.requested) + text_field(
        "published"@,
        m.published,
    ) + match m.weekly_downloads {
        Some(d) => seq!["\"weekly_downloads\":"@ + crate::text::decimal(d as nat)],
        None => Seq::<Seq<char>>::empty(),
    });
    push_char(out, '}');
    assert(out@ =~= start + metadata_json_spec(*m));
}

/// A response as JSON: allow, risk, reasons, metadata.
pub open spec fn response_json_spec(r: ToolResponse) -> Seq<char> {
    "{\"allow\":"@ + json_bool_spec(r.allow) + ",\"risk\":"@ + json_string_spec(r.risk.name_spec())
        + ",\"reasons\":"@ + json_array_spec(r.reasons@.map_values(|s: String| s@))
        + ",\"metadata\":"@ + metadata_json_spec(r.metadata) + seq!['}']
}

impl ToolResponse {
    /// The response as JSON, as the cache stores it.
    pub fn to_json(&self) -> (r: String)
        ensures
            r@ == response_json_spec(*self),
    {
        let mut out = String::new();
        append_str(&mut out, "{\"allow\":");
        push_json_bool(&mut out, self.allow);
        append_str(&mut out, ",\"risk\":");
        push_json_string(&mut out, self.risk.as_str());
        append_str(&mut out, ",\"reasons\":");
        push_json_string_array(&mut out, &self.reasons);
        append_str(&mut out, ",\"metadata\":");
        push_metadata_json(&mut out, &self.metadata);
        push_char(&mut out, '}');
        assert(out@ =~= response_json_spec(*self));
        out
    }
}

/// What follows a decision: the response returned, the one audit record
/// appended for it, and the cache row written (only for a fresh decision).
pub struct Conclusion {
    pub response: ToolResponse,
    pub audit: AuditRecord,
    pub store: Option<(String, String)>,
}

/// Concludes a request whose decision is `response`: served from the cache
/// (`cached`) or freshly made. Exactly one audit record goes with it, whose
/// `cached` flag says which; a fresh decision is also cached, as its JSON,
/// under `cache_key`.
pub fn conclude(
    context: &str,
    registry: &str,
    package: &str,
    requested: Option<&str>,
    cache_key: &str,
    response: ToolResponse,
    cached: bool,
) -> (r: Conclusion)
    ensures
        r.audit.cached == cached,
        r.audit.allow == response.allow && r.audit.risk == response.risk,
        strings_view(r.audit.reasons@) == strings_view(response.reasons@),
        r.audit.context@ == context@ && r.audit.registry@ == registry@ && r.audit.package@ == package@,
        opt_view(r.audit.requested) == opt_str_view(requested),
        r.response.allow == response.allow && r.response.risk == response.risk
            && r.response.reasons == response.reasons && r.response.metadata == response.metadata,
        cached ==> r.store is None,
        !cached ==> (r.store matches Some(row) && row.0@ == cache_key@ && row.1@ == response_json_spec(response)),
{
    let mut reasons: Vec<String> = Vec::new();
    let mut i: usize = 0;
    while i < response.reasons.len()
        invariant
            i <= response.reasons@.len(),
            strings_view(reasons@) == strings_view(response.reasons@.take(i as int)),
        decreases response.reasons@.len() - i,
    {
        let ghost before = reasons@;
        reasons.push(response.reasons[i].clone());
        assert(response.reasons@.take(i + 1) =~= response.reasons@.take(i as int).push(response.reasons@[i as int]));
        assert(strings_view(reasons@) =~= strings_view(before).push(response.reasons@[i as int]@));
        i = i + 1;
    }
    assert(response.reasons@.take(i as int) =~= response.reasons@);
    let audit = AuditRecord::package_decision(PackageDecision {
        context,
        package,
        requested,
        registry,
        allow: response.allow,
        risk: response.risk,
        reasons,
        metadata: Some(response.metadata.copy()),
        cached,
    });
    let store = if cached {
        None
    } else {
        Some((cache_key.to_owned(), response.to_json()))
    };
    Conclusion { response, audit, store }
}

} // verus!
