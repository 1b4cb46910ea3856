//! State model and rule compilation. The state mirrors the profile format of
//! the browser extension; `compile` turns it into a ruleset once, and
//! `Compiled::plan_for` decides, for one request URL, which redirect and
//! which header edits apply.

use vstd::prelude::*;

use crate::pattern::{Pattern, compile_pattern, pattern_captures, pattern_is_match, regex_captures, regex_error, regex_is_match, groups_view};
use crate::text::{to_chars, chars_to_string, trim, trim_chars, ci_eq, eq_ignore_ascii_case, debug_quoted, debug_quote, chars_eq, extend_chars};

verus! {

// ---------------------------------------------------------------------------
// State model
// ---------------------------------------------------------------------------

/// One header row: set `name` to `value`, or remove it when `value` is empty.
#[derive(Debug, Clone)]
pub struct Header {
    pub enabled: bool,
    pub name: String,
    pub value: String,
    pub comment: String,
}

/// A URL redirect: requests matching the expression `from` go to `to`, where
/// `\1`..`\9` stand for the capture groups.
#[derive(Debug, Clone)]
pub struct Redirect {
    pub enabled: bool,
    pub from: String,
    pub to: String,
}

/// A URL filter. `include`/`exclude` match the request URL by regular
/// expression; other kinds (resource types) are kept but not used.
#[derive(Debug, Clone)]
pub struct Filter {
    pub enabled: bool,
    pub kind: String,
    pub value: String,
}

/// A named set of rules.
#[derive(Debug, Clone)]
pub struct Profile {
    pub title: String,
    pub color: String,
    pub enabled: bool,
    pub headers: Vec<Header>,
    pub resp_headers: Vec<Header>,
    pub redirects: Vec<Redirect>,
    pub filters: Vec<Filter>,
}

/// Everything the user configured.
#[derive(Debug, Clone)]
pub struct AppState {
    pub profiles: Vec<Profile>,
    pub selected_profile: usize,
    pub paused: bool,
    pub theme: String,
}

/// The value a missing `enabled` flag takes.
pub fn default_true() -> (r: bool)
    ensures
        r,
{
    true
}

/// The color a profile without one gets.
pub fn default_color() -> (r: String)
    ensures
        r@ == "#6d5ef2"@,
{
    String::from_str("#6d5ef2")
}

/// The theme a state without one gets.
pub fn default_theme() -> (r: String)
    ensures
        r@ == "auto"@,
{
    String::from_str("auto")
}

/// The state a fresh installation starts with: one enabled profile named
/// "Profile 1" holding one empty, enabled request-header row.
pub fn default_state() -> (r: AppState)
    ensures
        r.profiles@.len() == 1,
        r.profiles@[0].title@ == "Profile 1"@,
        r.profiles@[0].color@ == "#6d5ef2"@,
        r.profiles@[0].enabled,
        r.profiles@[0].headers@.len() == 1,
        r.profiles@[0].headers@[0].enabled,
        r.profiles@[0].headers@[0].name@.len() == 0,
        r.profiles@[0].headers@[0].value@.len() == 0,
        r.profiles@[0].headers@[0].comment@.len() == 0,
        r.profiles@[0].resp_headers@.len() == 0,
        r.profiles@[0].redirects@.len() == 0,
        r.profiles@[0].filters@.len() == 0,
        r.selected_profile == 0,
        !r.paused,
        r.theme@ == "auto"@,
{
    let mut headers: Vec<Header> = Vec::new();
    headers.push(
        Header { enabled: true, name: String::new(), value: String::new(), comment: String::new() },
    );
    let mut profiles: Vec<Profile> = Vec::new();
    profiles.push(
        Profile {
            title: String::from_str("Profile 1"),
            color: default_color(),
            enabled: true,
            headers,
            resp_headers: Vec::new(),
            redirects: Vec::new(),
            filters: Vec::new(),
        },
    );
    AppState { profiles, selected_profile: 0, paused: false, theme: default_theme() }
}

// ---------------------------------------------------------------------------
// Header actions and plans
// ---------------------------------------------------------------------------

/// What to do with a header.
#[derive(Debug, Clone, Copy, PartialEq, Eq, Structural)]
pub enum HeaderOp {
    Assign,
    Remove,
}

/// One header edit.
#[derive(Debug, Clone, PartialEq, Eq)]
pub struct HeaderAction {
    pub op: HeaderOp,
    pub name: String,
    pub value: String,
}

/// A header edit as plain values.
#[verifier::ext_equal]
pub struct ActionView {
    pub op: HeaderOp,
    pub name: Seq<char>,
    pub value: Seq<char>,
}

impl View for HeaderAction {
    type V = ActionView;

    open spec fn view(&self) -> ActionView {
        ActionView { op: self.op, name: self.name@, value: self.value@ }
    }
}

/// The views of a sequence of header edits.
pub open spec fn actions_view(v: Seq<HeaderAction>) -> Seq<ActionView> {
    v.map_values(|a: HeaderAction| a@)
}

/// The views of a sequence of strings.
pub open spec fn strings_view(v: Seq<String>) -> Seq<Seq<char>> {
    v.map_values(|s: String| s@)
}

/// The view of an optional string.
pub open spec fn opt_view(o: Option<String>) -> Option<Seq<char>> {
    match o {
        Some(s) => Some(s@),
        None => None,
    }
}

/// A copy of a header edit.
pub fn copy_action(a: &HeaderAction) -> (r: HeaderAction)
    ensures
        r@ == a@,
{
    HeaderAction { op: a.op, name: a.name.clone(), value: a.value.clone() }
}

/// What to do with a single request, decided by matching every enabled profile.
#[derive(Debug, Default, PartialEq, Eq)]
pub struct Plan {
    pub redirect_to: Option<String>,
    pub request_headers: Vec<HeaderAction>,
    pub response_headers: Vec<HeaderAction>,
}

/// A plan as plain values.
#[verifier::ext_equal]
pub struct PlanView {
    pub redirect_to: Option<Seq<char>>,
    pub request_headers: Seq<ActionView>,
    pub response_headers: Seq<ActionView>,
}

impl View for Plan {
    type V = PlanView;

    open spec fn view(&self) -> PlanView {
        PlanView {
            redirect_to: opt_view(self.redirect_to),
            request_headers: actions_view(self.request_headers@),
            response_headers: actions_view(self.response_headers@),
        }
    }
}

/// The plan that changes nothing.
pub open spec fn empty_plan() -> PlanView {
    PlanView {
        redirect_to: None,
        request_headers: Seq::<ActionView>::empty(),
        response_headers: Seq::<ActionView>::empty(),
    }
}

impl Plan {
    /// Whether the plan neither redirects nor edits any header.
    pub fn is_empty(&self) -> (r: bool)
        ensures
            r == (self@ == empty_plan()),
    {
        let r = self.redirect_to.is_none() && self.request_headers.len() == 0
            && self.response_headers.len() == 0;
        if r {
            assert(self@ =~= empty_plan());
        }
        r
    }
}

/// A plan that changes nothing.
pub fn new_empty_plan() -> (r: Plan)
    ensures
        r@ == empty_plan(),
{
    let r = Plan { redirect_to: None, request_headers: Vec::new(), response_headers: Vec::new() };
    assert(r@ =~= empty_plan());
    r
}

// ---------------------------------------------------------------------------
// Header names
// ---------------------------------------------------------------------------

/// RFC 7230 token characters: what a header name may contain.
pub open spec fn is_token_char(c: char) -> bool {
    ||| 'a' <= c && c <= 'z'
    ||| 'A' <= c && c <= 'Z'
    ||| '0' <= c && c <= '9'
    ||| c == '!' || c == '#' || c == '$' || c == '%' || c == '&' || c == '\''
    ||| c == '*' || c == '+' || c == '-' || c == '.' || c == '^' || c == '_'
    ||| c == '`' || c == '|' || c == '~'
}

/// A valid header name: non-empty and made of token characters only.
pub open spec fn valid_header_name(s: Seq<char>) -> bool {
    s.len() > 0 && forall|i: int| 0 <= i < s.len() ==> is_token_char(#[trigger] s[i])
}

fn is_token_char_exec(c: char) -> (r: bool)
    ensures
        r == is_token_char(c),
{
    ('a' <= c && c <= 'z') || ('A' <= c && c <= 'Z') || ('0' <= c && c <= '9') || c == '!' || c
        == '#' || c == '$' || c == '%' || c == '&' || c == '\'' || c == '*' || c == '+' || c
        == '-' || c == '.' || c == '^' || c == '_' || c == '`' || c == '|' || c == '~'
}

/// Whether `v` is a valid header name.
pub fn header_name_ok(v: &[char]) -> (r: bool)
    ensures
        r == valid_header_name(v@),
{
    if v.len() == 0 {
        return false;
    }
    let mut i: usize = 0;
    while i < v.len()
        invariant
            i <= v@.len(),
            forall|j: int| 0 <= j < i ==> is_token_char(#[trigger] v@[j]),
        decreases v@.len() - i,
    {
        if !is_token_char_exec(v[i]) {
            return false;
        }
        i = i + 1;
    }
    true
}

/// Whether `name` is a valid header name (RFC 7230 token).
pub fn is_valid_header_name(name: &str) -> (r: bool)
    ensures
        r == valid_header_name(name@),
{
    let v = to_chars(name);
    header_name_ok(&v)
}

// ---------------------------------------------------------------------------
// Compiling header rows
// ---------------------------------------------------------------------------

/// What one header row contributes when compiled.
pub enum RowOutcome {
    /// Disabled, or its name is blank.
    Skip,
    /// Its trimmed name is not a valid header name; the error message.
    Invalid(Seq<char>),
    /// A header edit.
    Act(ActionView),
}

/// The error reported for an invalid header name.
pub open spec fn invalid_name_message(name: Seq<char>) -> Seq<char> {
    "Invalid header name: "@ + debug_quoted(name)
}

/// What header row `h` compiles to: its trimmed name with `Remove` when the
/// value is empty, `Assign` with the value otherwise.
pub open spec fn row_outcome(h: Header) -> RowOutcome {
    let name = trim(h.name@);
    if !h.enabled || name.len() == 0 {
        RowOutcome::Skip
    } else if !valid_header_name(name) {
        RowOutcome::Invalid(invalid_name_message(name))
    } else if h.value@.len() == 0 {
        RowOutcome::Act(ActionView { op: HeaderOp::Remove, name, value: Seq::<char>::empty() })
    } else {
        RowOutcome::Act(ActionView { op: HeaderOp::Assign, name, value: h.value@ })
    }
}

/// The header edits that rows compile to, in row order.
pub open spec fn row_actions(rows: Seq<Header>) -> Seq<ActionView>
    decreases rows.len(),
{
    if rows.len() == 0 {
        Seq::<ActionView>::empty()
    } else {
        let prev = row_actions(rows.drop_last());
        match row_outcome(rows.last()) {
            RowOutcome::Act(a) => prev.push(a),
            _ => prev,
        }
    }
}

/// The errors that rows report, in row order.
pub open spec fn row_errors(rows: Seq<Header>) -> Seq<Seq<char>>
    decreases rows.len(),
{
    if rows.len() == 0 {
        Seq::<Seq<char>>::empty()
    } else {
        let prev = row_errors(rows.drop_last());
        match row_outcome(rows.last()) {
            RowOutcome::Invalid(e) => prev.push(e),
            _ => prev,
        }
    }
}

/// Compiles header rows into edits; errors are appended to `errors`.
fn header_actions(rows: &[Header], errors: &mut Vec<String>) -> (r: Vec<HeaderAction>)
    ensures
        actions_view(r@) == row_actions(rows@),
        strings_view(final(errors)@) == strings_view(old(errors)@) + row_errors(rows@),
{
    let mut out: Vec<HeaderAction> = Vec::new();
    let mut i: usize = 0;
    assert(rows@.take(0) =~= Seq::<Header>::empty());
    assert(strings_view(errors@) =~= strings_view(old(errors)@) + row_errors(rows@.take(0)));
    while i < rows.len()
        invariant
            i <= rows@.len(),
            actions_view(out@) =~= row_actions(rows@.take(i as int)),
            strings_view(errors@) =~= strings_view(old(errors)@) + row_errors(rows@.take(i as int)),
        decreases rows@.len() - i,
    {
        let row = &rows[i];
        proof {
            assert(rows@.take(i + 1).drop_last() =~= rows@.take(i as int));
            assert(rows@.take(i + 1).last() == rows@[i as int]);
        }
        if row.enabled {
            let name = trim_chars(&to_chars(row.name.as_str()));
            if name.len() > 0 {
                if !header_name_ok(&name) {
                    let name_s = chars_to_string(&name);
                    let mut msg = String::from_str("Invalid header name: ");
                    let q = debug_quote(name_s.as_str());
                    msg.append(q.as_str());
                    let ghost before = errors@;
                    errors.push(msg);
                    proof {
                        assert(row_outcome(rows@[i as int]) == RowOutcome::Invalid(
                            invalid_name_message(name@),
                        ));
                        assert(strings_view(errors@) =~= strings_view(before).push(
                            invalid_name_message(name@),
                        ));
                    }
                } else if row.value.as_str().is_empty() {
                    out.push(
                        HeaderAction {
                            op: HeaderOp::Remove,
                            name: chars_to_string(&name),
                            value: String::new(),
                        },
                    );
                } else {
                    out.push(
                        HeaderAction {
                            op: HeaderOp::Assign,
                            name: chars_to_string(&name),
                            value: row.value.clone(),
                        },
                    );
                }
            }
        }
        i = i + 1;
    }
    assert(rows@.take(rows@.len() as int) =~= rows@);
    out
}

// ---------------------------------------------------------------------------
// Compiling filters and redirects
// ---------------------------------------------------------------------------

/// Filter `f` is an enabled, non-empty filter of the given kind.
pub open spec fn filter_selected(f: Filter, kind: Seq<char>) -> bool {
    f.enabled && f.kind@ == kind && f.value@.len() > 0
}

/// The error reported for a filter expression that does not compile.
pub open spec fn bad_filter_message(kind: Seq<char>, value: Seq<char>, e: Seq<char>) -> Seq<
    char,
> {
    "Bad "@ + kind + " filter "@ + debug_quoted(value) + ": "@ + e
}

/// The sources of the selected filters of a kind that compile, in order.
pub open spec fn filter_sources(fs: Seq<Filter>, kind: Seq<char>) -> Seq<Seq<char>>
    decreases fs.len(),
{
    if fs.len() == 0 {
        Seq::<Seq<char>>::empty()
    } else {
        let prev = filter_sources(fs.drop_last(), kind);
        let f = fs.last();
        if filter_selected(f, kind) && regex_error(f.value@) is None {
            prev.push(f.value@)
        } else {
            prev
        }
    }
}

/// The errors of the selected filters of a kind that do not compile, in order.
pub open spec fn filter_errors(fs: Seq<Filter>, kind: Seq<char>) -> Seq<Seq<char>>
    decreases fs.len(),
{
    if fs.len() == 0 {
        Seq::<Seq<char>>::empty()
    } else {
        let prev = filter_errors(fs.drop_last(), kind);
        let f = fs.last();
        if filter_selected(f, kind) && regex_error(f.value@) is Some {
            prev.push(bad_filter_message(kind, f.value@, regex_error(f.value@)->0))
        } else {
            prev
        }
    }
}

/// The sources of a sequence of compiled expressions.
pub open spec fn sources(v: Seq<Pattern>) -> Seq<Seq<char>> {
    v.map_values(|p: Pattern| p.source())
}

/// Compiles the selected filters of one kind; errors are appended to `errors`.
fn compile_regexes(filters: &[Filter], kind: &str, errors: &mut Vec<String>) -> (r: Vec<Pattern>)
    ensures
        sources(r@) == filter_sources(filters@, kind@),
        strings_view(final(errors)@) == strings_view(old(errors)@) + filter_errors(
            filters@,
            kind@,
        ),
{
    let kind_v = to_chars(kind);
    let mut out: Vec<Pattern> = Vec::new();
    let mut i: usize = 0;
    assert(filters@.take(0) =~= Seq::<Filter>::empty());
    assert(strings_view(errors@) =~= strings_view(old(errors)@) + filter_errors(
        filters@.take(0),
        kind@,
    ));
    while i < filters.len()
        invariant
            i <= filters@.len(),
            kind_v@ == kind@,
            sources(out@) =~= filter_sources(filters@.take(i as int), kind@),
            strings_view(errors@) =~= strings_view(old(errors)@) + filter_errors(
                filters@.take(i as int),
                kind@,
            ),
        decreases filters@.len() - i,
    {
        let f = &filters[i];
        proof {
            assert(filters@.take(i + 1).drop_last() =~= filters@.take(i as int));
            assert(filters@.take(i + 1).last() == filters@[i as int]);
        }
        if f.enabled && chars_eq(&to_chars(f.kind.as_str()), &kind_v) && !f.value.as_str().is_empty() {
            match compile_pattern(f.value.as_str()) {
                Ok(p) => {
                    out.push(p);
                },
                Err(e) => {
                    let mut msg = String::from_str("Bad ");
                    msg.append(kind);
                    msg.append(" filter ");
                    let q = debug_quote(f.value.as_str());
                    msg.append(q.as_str());
                    msg.append(": ");
                    msg.append(e.as_str());
                    let ghost before = errors@;
                    errors.push(msg);
                    proof {
                        assert(strings_view(errors@) =~= strings_view(before).push(
                            bad_filter_message(kind@, f.value@, e@),
                        ));
                    }
                },
            }
        }
        i = i + 1;
    }
    assert(filters@.take(filters@.len() as int) =~= filters@);
    out
}

/// Some filter of the profile is a selected `include` filter.
pub open spec fn include_declared(fs: Seq<Filter>) -> bool {
    exists|i: int| 0 <= i < fs.len() && filter_selected(#[trigger] fs[i], "include"@)
}

/// Whether some filter is an enabled, non-empty `include` filter.
fn has_include_filter(filters: &[Filter]) -> (r: bool)
    ensures
        r == include_declared(filters@),
{
    let inc = to_chars("include");
    let mut i: usize = 0;
    while i < filters.len()
        invariant
            i <= filters@.len(),
            inc@ == "include"@,
            forall|j: int| 0 <= j < i ==> !filter_selected(#[trigger] filters@[j], "include"@),
        decreases filters@.len() - i,
    {
        let f = &filters[i];
        if f.enabled && chars_eq(&to_chars(f.kind.as_str()), &inc) && !f.value.as_str().is_empty() {
            assert(filter_selected(filters@[i as int], "include"@));
            return true;
        }
        i = i + 1;
    }
    false
}

/// A redirect `r` is enabled with both sides non-empty.
pub open spec fn redirect_selected(r: Redirect) -> bool {
    r.enabled && r.from@.len() > 0 && r.to@.len() > 0
}

/// The error reported for a redirect expression that does not compile.
pub open spec fn bad_redirect_message(from: Seq<char>, e: Seq<char>) -> Seq<char> {
    "Bad redirect "@ + debug_quoted(from) + ": "@ + e
}

/// The (source, target) pairs of the selected redirects that compile, in order.
pub open spec fn redirect_rules(rs: Seq<Redirect>) -> Seq<(Seq<char>, Seq<char>)>
    decreases rs.len(),
{
    if rs.len() == 0 {
        Seq::<(Seq<char>, Seq<char>)>::empty()
    } else {
        let prev = redirect_rules(rs.drop_last());
        let r = rs.last();
        if redirect_selected(r) && regex_error(r.from@) is None {
            prev.push((r.from@, r.to@))
        } else {
            prev
        }
    }
}

/// The errors of the selected redirects that do not compile, in order.
pub open spec fn redirect_errors(rs: Seq<Redirect>) -> Seq<Seq<char>>
    decreases rs.len(),
{
    if rs.len() == 0 {
        Seq::<Seq<char>>::empty()
    } else {
        let prev = redirect_errors(rs.drop_last());
        let r = rs.last();
        if redirect_selected(r) && regex_error(r.from@) is Some {
            prev.push(bad_redirect_message(r.from@, regex_error(r.from@)->0))
        } else {
            prev
        }
    }
}

struct CompiledRedirect {
    from: Pattern,
    to: String,
}

/// The (source, target) pairs of compiled redirects.
spec fn redirect_pairs(v: Seq<CompiledRedirect>) -> Seq<(Seq<char>, Seq<char>)> {
    v.map_values(|r: CompiledRedirect| (r.from.source(), r.to@))
}

/// Compiles the selected redirects; errors are appended to `errors`.
fn compile_redirects(rs: &[Redirect], errors: &mut Vec<String>) -> (r: Vec<CompiledRedirect>)
    ensures
        redirect_pairs(r@) == redirect_rules(rs@),
        strings_view(final(errors)@) == strings_view(old(errors)@) + redirect_errors(rs@),
{
    let mut out: Vec<CompiledRedirect> = Vec::new();
    let mut i: usize = 0;
    assert(rs@.take(0) =~= Seq::<Redirect>::empty());
    assert(strings_view(errors@) =~= strings_view(old(errors)@) + redirect_errors(rs@.take(0)));
    while i < rs.len()
        invariant
            i <= rs@.len(),
            redirect_pairs(out@) =~= redirect_rules(rs@.take(i as int)),
            strings_view(errors@) =~= strings_view(old(errors)@) + redirect_errors(rs@.take(i as int)),
        decreases rs@.len() - i,
    {
        let r = &rs[i];
        proof {
            assert(rs@.take(i + 1).drop_last() =~= rs@.take(i as int));
            assert(rs@.take(i + 1).last() == rs@[i as int]);
        }
        if r.enabled && !r.from.as_str().is_empty() && !r.to.as_str().is_empty() {
            match compile_pattern(r.from.as_str()) {
                Ok(p) => {
                    out.push(CompiledRedirect { from: p, to: r.to.clone() });
                },
                Err(e) => {
                    let mut msg = String::from_str("Bad redirect ");
                    let q = debug_quote(r.from.as_str());
                    msg.append(q.as_str());
                    msg.append(": ");
                    msg.append(e.as_str());
                    let ghost before = errors@;
                    errors.push(msg);
                    proof {
                        assert(strings_view(errors@) =~= strings_view(before).push(
                            bad_redirect_message(r.from@, e@),
                        ));
                    }
                },
            }
        }
        i = i + 1;
    }
    assert(rs@.take(rs@.len() as int) =~= rs@);
    out
}

// ---------------------------------------------------------------------------
// Compiling profiles and the whole state
// ---------------------------------------------------------------------------

/// The rules of one compiled profile, as plain values.
#[verifier::ext_equal]
pub struct ProfileRules {
    /// Sources of the `include` expressions.
    pub includes: Seq<Seq<char>>,
    /// Sources of the `exclude` expressions.
    pub excludes: Seq<Seq<char>>,
    /// Request-header edits.
    pub req: Seq<ActionView>,
    /// Response-header edits.
    pub resp: Seq<ActionView>,
    /// (source, target) of each redirect.
    pub redirects: Seq<(Seq<char>, Seq<char>)>,
}

/// A compiled ruleset as plain values.
#[verifier::ext_equal]
pub struct RuleSet {
    pub paused: bool,
    pub profiles: Seq<ProfileRules>,
    /// The error messages.
    pub errors: Seq<Seq<char>>,
    /// The number of active rules.
    pub active_count: nat,
}

/// The profile declares include filters, but none of them compiles.
pub open spec fn disabled_by_includes(p: Profile) -> bool {
    include_declared(p.filters@) && filter_sources(p.filters@, "include"@).len() == 0
}

/// The error reported for a profile whose include filters all fail.
pub open spec fn disabled_message(title: Seq<char>) -> Seq<char> {
    "Profile "@ + debug_quoted(title) + ": all include filters invalid — profile disabled"@
}

/// What profile `p` compiles to: nothing when it is disabled or all of its
/// declared include filters fail to compile.
pub open spec fn profile_rules(p: Profile) -> Option<ProfileRules> {
    if !p.enabled || disabled_by_includes(p) {
        None
    } else {
        Some(
            ProfileRules {
                includes: filter_sources(p.filters@, "include"@),
                excludes: filter_sources(p.filters@, "exclude"@),
                req: row_actions(p.headers@),
                resp: row_actions(p.resp_headers@),
                redirects: redirect_rules(p.redirects@),
            },
        )
    }
}

/// The errors that compiling profile `p` reports, in order.
pub open spec fn profile_errors(p: Profile) -> Seq<Seq<char>> {
    if !p.enabled {
        Seq::<Seq<char>>::empty()
    } else {
        let filter_errs = filter_errors(p.filters@, "include"@) + filter_errors(
            p.filters@,
            "exclude"@,
        );
        if disabled_by_includes(p) {
            filter_errs.push(disabled_message(p.title@))
        } else {
            filter_errs + row_errors(p.headers@) + row_errors(p.resp_headers@) + redirect_errors(
                p.redirects@,
            )
        }
    }
}

/// The number of rules of a compiled profile.
pub open spec fn rule_count(r: ProfileRules) -> nat {
    r.req.len() + r.resp.len() + r.redirects.len()
}

/// The compiled rules of the profiles that compile, in order.
pub open spec fn compiled_rules(ps: Seq<Profile>) -> Seq<ProfileRules>
    decreases ps.len(),
{
    if ps.len() == 0 {
        Seq::<ProfileRules>::empty()
    } else {
        let prev = compiled_rules(ps.drop_last());
        match profile_rules(ps.last()) {
            Some(r) => prev.push(r),
            None => prev,
        }
    }
}

/// All errors of compiling the profiles, in order.
pub open spec fn compiled_errors(ps: Seq<Profile>) -> Seq<Seq<char>>
    decreases ps.len(),
{
    if ps.len() == 0 {
        Seq::<Seq<char>>::empty()
    } else {
        compiled_errors(ps.drop_last()) + profile_errors(ps.last())
    }
}

/// The number of active rules: edits and redirects of the compiled profiles.
pub open spec fn compiled_count(ps: Seq<Profile>) -> nat
    decreases ps.len(),
{
    if ps.len() == 0 {
        0
    } else {
        compiled_count(ps.drop_last()) + match profile_rules(ps.last()) {
            Some(r) => rule_count(r),
            None => 0,
        }
    }
}

/// The rows of a profile that can become rules: its request and response
/// header rows and its redirects.
pub open spec fn profile_rows(p: Profile) -> nat {
    p.headers@.len() + p.resp_headers@.len() + p.redirects@.len()
}

/// The rows of all the profiles.
pub open spec fn total_rows(ps: Seq<Profile>) -> nat
    decreases ps.len(),
{
    if ps.len() == 0 {
        0
    } else {
        total_rows(ps.drop_last()) + profile_rows(ps.last())
    }
}

proof fn lemma_row_actions_len(rows: Seq<Header>)
    ensures
        row_actions(rows).len() <= rows.len(),
    decreases rows.len(),
{
    if rows.len() > 0 {
        lemma_row_actions_len(rows.drop_last());
    }
}

proof fn lemma_redirect_rules_len(rs: Seq<Redirect>)
    ensures
        redirect_rules(rs).len() <= rs.len(),
    decreases rs.len(),
{
    if rs.len() > 0 {
        lemma_redirect_rules_len(rs.drop_last());
    }
}

/// Each row compiles to at most one rule.
proof fn lemma_compiled_count_rows(ps: Seq<Profile>)
    ensures
        compiled_count(ps) <= total_rows(ps),
    decreases ps.len(),
{
    if ps.len() > 0 {
        lemma_compiled_count_rows(ps.drop_last());
        let p = ps.last();
        lemma_row_actions_len(p.headers@);
        lemma_row_actions_len(p.resp_headers@);
        lemma_redirect_rules_len(p.redirects@);
    }
}

/// The count over a prefix is at most the count over the whole.
pub proof fn lemma_compiled_count_prefix(ps: Seq<Profile>, i: int)
    requires
        0 <= i <= ps.len(),
    ensures
        compiled_count(ps.take(i)) <= compiled_count(ps),
    decreases ps.len(),
{
    if i < ps.len() {
        lemma_compiled_count_prefix(ps.drop_last(), i);
        assert(ps.drop_last().take(i) =~= ps.take(i));
    } else {
        assert(ps.take(i) =~= ps);
    }
}

/// What compiling a state with the given pause flag and profiles yields.
pub open spec fn compiled_view(paused: bool, ps: Seq<Profile>) -> RuleSet {
    RuleSet {
        paused,
        profiles: compiled_rules(ps),
        errors: compiled_errors(ps),
        active_count: compiled_count(ps),
    }
}

struct CompiledProfile {
    includes: Vec<Pattern>,
    excludes: Vec<Pattern>,
    req_headers: Vec<HeaderAction>,
    resp_headers: Vec<HeaderAction>,
    redirects: Vec<CompiledRedirect>,
}

impl View for CompiledProfile {
    type V = ProfileRules;

    closed spec fn view(&self) -> ProfileRules {
        ProfileRules {
            includes: sources(self.includes@),
            excludes: sources(self.excludes@),
            req: actions_view(self.req_headers@),
            resp: actions_view(self.resp_headers@),
            redirects: redirect_pairs(self.redirects@),
        }
    }
}

spec fn profiles_view(v: Seq<CompiledProfile>) -> Seq<ProfileRules> {
    v.map_values(|p: CompiledProfile| p@)
}

/// The precompiled, ready-to-serve ruleset.
pub struct Compiled {
    paused: bool,
    profiles: Vec<CompiledProfile>,
    /// Messages of the expressions and names that failed to compile.
    pub errors: Vec<String>,
    pub active_count: usize,
}

impl View for Compiled {
    type V = RuleSet;

    closed spec fn view(&self) -> RuleSet {
        RuleSet {
            paused: self.paused,
            profiles: profiles_view(self.profiles@),
            errors: strings_view(self.errors@),
            active_count: self.active_count as nat,
        }
    }
}

/// Compiles one profile; its errors are appended to `errors`.
fn compile_profile(profile: &Profile, errors: &mut Vec<String>) -> (r: Option<CompiledProfile>)
    ensures
        match r {
            Some(c) => profile_rules(*profile) == Some(c@),
            None => profile_rules(*profile) is None,
        },
        strings_view(final(errors)@) == strings_view(old(errors)@) + profile_errors(*profile),
{
    if !profile.enabled {
        assert(strings_view(errors@) =~= strings_view(old(errors)@) + profile_errors(*profile));
        return None;
    }
    let includes = compile_regexes(&profile.filters, "include", errors);
    let excludes = compile_regexes(&profile.filters, "exclude", errors);
    let include_declared = has_include_filter(&profile.filters);
    if include_declared && includes.len() == 0 {
        let mut msg = String::from_str("Profile ");
        let q = debug_quote(profile.title.as_str());
        msg.append(q.as_str());
        msg.append(": all include filters invalid — profile disabled");
        let ghost before = errors@;
        errors.push(msg);
        proof {
            assert(strings_view(errors@) =~= strings_view(before).push(
                disabled_message(profile.title@),
            ));
            assert(strings_view(errors@) =~= strings_view(old(errors)@) + profile_errors(
                *profile,
            ));
        }
        return None;
    }
    let req_headers = header_actions(&profile.headers, errors);
    let resp_headers = header_actions(&profile.resp_headers, errors);
    let redirects = compile_redirects(&profile.redirects, errors);
    let c = CompiledProfile { includes, excludes, req_headers, resp_headers, redirects };
    proof {
        assert(strings_view(errors@) =~= strings_view(old(errors)@) + profile_errors(*profile));
        assert(profile_rules(*profile) =~= Some(c@));
    }
    Some(c)
}

impl Compiled {
    /// The number of active rules.
    pub fn active_count(&self) -> (r: usize)
        ensures
            r == self@.active_count,
    {
        self.active_count
    }

    /// The messages of the expressions and names that failed to compile.
    pub fn errors(&self) -> (r: &Vec<String>)
        ensures
            strings_view(r@) == self@.errors,
    {
        &self.errors
    }
}

/// Compiles the whole state into a ruleset once. Disabled profiles and
/// profiles whose declared include filters all fail contribute nothing;
/// every failure is reported in `errors`; `active_count` counts the header
/// edits and redirects of the compiled profiles.
pub fn compile(state: &AppState) -> (r: Compiled)
    requires
        total_rows(state.profiles@) <= usize::MAX,
    ensures
        r@ == compiled_view(state.paused, state.profiles@),
{
    proof {
        lemma_compiled_count_rows(state.profiles@);
    }
    let mut errors: Vec<String> = Vec::new();
    let mut profiles: Vec<CompiledProfile> = Vec::new();
    let mut active_count: usize = 0;
    let ps = &state.profiles;
    let mut i: usize = 0;
    assert(ps@.take(0) =~= Seq::<Profile>::empty());
    assert(strings_view(errors@) =~= Seq::<Seq<char>>::empty());
    while i < ps.len()
        invariant
            i <= ps@.len(),
            ps@ == state.profiles@,
            compiled_count(ps@) <= usize::MAX,
            profiles_view(profiles@) =~= compiled_rules(ps@.take(i as int)),
            strings_view(errors@) =~= compiled_errors(ps@.take(i as int)),
            active_count == compiled_count(ps@.take(i as int)),
        decreases ps@.len() - i,
    {
        proof {
            assert(ps@.take(i + 1).drop_last() =~= ps@.take(i as int));
            assert(ps@.take(i + 1).last() == ps@[i as int]);
            lemma_compiled_count_prefix(ps@, i + 1);
        }
        let ghost before = errors@;
        let compiled = compile_profile(&ps[i], &mut errors);
        match compiled {
            Some(c) => {
                let n = c.req_headers.len() + c.resp_headers.len() + c.redirects.len();
                active_count = active_count + n;
                profiles.push(c);
            },
            None => {},
        }
        i = i + 1;
    }
    assert(ps@.take(ps@.len() as int) =~= ps@);
    let r = Compiled { paused: state.paused, profiles, errors, active_count };
    assert(r@ =~= compiled_view(state.paused, state.profiles@));
    r
}

// ---------------------------------------------------------------------------
// Redirect targets
// ---------------------------------------------------------------------------

/// `c` is an ASCII digit.
pub open spec fn is_digit(c: char) -> bool {
    '0' <= c && c <= '9'
}

/// The value of an ASCII digit.
pub open spec fn digit_value(c: char) -> int {
    (c as u32) - ('0' as u32)
}

/// The text of capture group `i`, empty when it does not exist or did not match.
pub open spec fn group_text(g: Seq<Option<Seq<char>>>, i: int) -> Seq<char> {
    if 0 <= i < g.len() && g[i] is Some {
        g[i]->0
    } else {
        Seq::<char>::empty()
    }
}

/// A redirect target with `\0`..`\9` replaced by the capture groups' text and
/// `\\` by one backslash; every other character, a lone backslash included,
/// is copied as it is.
pub open spec fn expand(t: Seq<char>, g: Seq<Option<Seq<char>>>) -> Seq<char>
    decreases t.len(),
{
    if t.len() == 0 {
        Seq::<char>::empty()
    } else if t[0] != '\\' {
        seq![t[0]] + expand(t.drop_first(), g)
    } else if t.len() >= 2 && t[1] == '\\' {
        seq!['\\'] + expand(t.skip(2), g)
    } else if t.len() >= 2 && is_digit(t[1]) {
        group_text(g, digit_value(t[1])) + expand(t.skip(2), g)
    } else {
        seq!['\\'] + expand(t.drop_first(), g)
    }
}

/// Expands `\0`..`\9` capture-group references in a redirect target, using
/// the `\N` syntax of the browser extension. `\\` yields a literal
/// backslash; everything else is copied verbatim, so a literal `$` in a URL
/// is never misread. `groups[i]` is the text of capture group `i`.
pub fn expand_backrefs(template: &str, groups: &Vec<Option<String>>) -> (r: String)
    ensures
        r@ == expand(template@, groups_view(groups@)),
{
    let ghost g = groups_view(groups@);
    let t = to_chars(template);
    let mut out: Vec<char> = Vec::new();
    let mut i: usize = 0;
    assert(t@.skip(0) =~= t@);
    while i < t.len()
        invariant
            i <= t@.len(),
            t@ == template@,
            g == groups_view(groups@),
            expand(t@, g) == out@ + expand(t@.skip(i as int), g),
        decreases t@.len() - i,
    {
        let ghost s = t@.skip(i as int);
        let ghost before = out@;
        let c = t[i];
        assert(s[0] == c);
        if c != '\\' {
            out.push(c);
            assert(s.drop_first() =~= t@.skip(i + 1));
            assert(out@ + expand(t@.skip(i + 1), g) =~= before + expand(s, g));
            i = i + 1;
        } else if i + 1 < t.len() && t[i + 1] == '\\' {
            out.push('\\');
            assert(s[1] == t@[i + 1]);
            assert(s.skip(2) =~= t@.skip(i + 2));
            assert(out@ + expand(t@.skip(i + 2), g) =~= before + expand(s, g));
            i = i + 2;
        } else if i + 1 < t.len() && '0' <= t[i + 1] && t[i + 1] <= '9' {
            let d = t[i + 1];
            assert(s[1] == d);
            let idx = ((d as u32) - ('0' as u32)) as usize;
            assert(idx == digit_value(d));
            if idx < groups.len() {
                match &groups[idx] {
                    Some(m) => {
                        let mv = to_chars(m.as_str());
                        extend_chars(&mut out, &mv);
                    },
                    None => {},
                }
            }
            assert(out@ == before + group_text(g, digit_value(d)));
            assert(s.skip(2) =~= t@.skip(i + 2));
            assert(out@ + expand(t@.skip(i + 2), g) =~= before + expand(s, g));
            i = i + 2;
        } else {
            out.push('\\');
            assert(s.drop_first() =~= t@.skip(i + 1));
            assert(out@ + expand(t@.skip(i + 1), g) =~= before + expand(s, g));
            i = i + 1;
        }
    }
    assert(t@.skip(i as int) =~= Seq::<char>::empty());
    assert(out@ =~= expand(t@, g));
    chars_to_string(&out)
}

/// A target without backslashes is copied unchanged.
pub proof fn lemma_expand_plain(t: Seq<char>, g: Seq<Option<Seq<char>>>)
    requires
        !t.contains('\\'),
    ensures
        expand(t, g) == t,
    decreases t.len(),
{
    if t.len() > 0 {
        assert(t[0] != '\\');
        assert(!t.drop_first().contains('\\')) by {
            if t.drop_first().contains('\\') {
                let k = choose|k: int| 0 <= k < t.drop_first().len() && t.drop_first()[k] == '\\';
                assert(t[k + 1] == '\\');
            }
        }
        lemma_expand_plain(t.drop_first(), g);
        assert(seq![t[0]] + t.drop_first() =~= t);
    }
}

// ---------------------------------------------------------------------------
// Matching a profile against a URL
// ---------------------------------------------------------------------------

/// Some expression in `ps` matches `url`.
pub open spec fn any_matches(ps: Seq<Seq<char>>, url: Seq<char>) -> bool {
    exists|i: int| 0 <= i < ps.len() && #[trigger] regex_is_match(ps[i], url)
}

/// A compiled profile applies to `url`: no exclude expression matches, and
/// either it has no include expressions or one of them matches.
pub open spec fn rule_matches(r: ProfileRules, url: Seq<char>) -> bool {
    !any_matches(r.excludes, url) && (r.includes.len() == 0 || any_matches(r.includes, url))
}

fn any_match(pats: &Vec<Pattern>, url: &str) -> (r: bool)
    ensures
        r == any_matches(sources(pats@), url@),
{
    let mut i: usize = 0;
    while i < pats.len()
        invariant
            i <= pats@.len(),
            forall|j: int| 0 <= j < i ==> !regex_is_match(#[trigger] sources(pats@)[j], url@),
        decreases pats@.len() - i,
    {
        if pattern_is_match(&pats[i], url) {
            assert(regex_is_match(sources(pats@)[i as int], url@));
            return true;
        }
        i = i + 1;
    }
    false
}

impl CompiledProfile {
    fn matches(&self, url: &str) -> (r: bool)
        ensures
            r == rule_matches(self@, url@),
    {
        if any_match(&self.excludes, url) {
            return false;
        }
        if self.includes.len() == 0 {
            return true;
        }
        any_match(&self.includes, url)
    }
}

/// The target of the first redirect whose expression matches `url`.
pub open spec fn first_redirect(rs: Seq<(Seq<char>, Seq<char>)>, url: Seq<char>) -> Option<
    Seq<char>,
>
    decreases rs.len(),
{
    if rs.len() == 0 {
        None
    } else {
        match regex_captures(rs[0].0, url) {
            Some(g) => Some(expand(rs[0].1, g)),
            None => first_redirect(rs.drop_first(), url),
        }
    }
}

fn first_redirect_exec(rs: &Vec<CompiledRedirect>, url: &str) -> (r: Option<String>)
    ensures
        opt_view(r) == first_redirect(redirect_pairs(rs@), url@),
{
    let ghost all = redirect_pairs(rs@);
    let mut i: usize = 0;
    assert(all.skip(0) =~= all);
    while i < rs.len()
        invariant
            i <= rs@.len(),
            all == redirect_pairs(rs@),
            first_redirect(all, url@) == first_redirect(all.skip(i as int), url@),
        decreases rs@.len() - i,
    {
        let ghost s = all.skip(i as int);
        assert(s[0] == all[i as int]);
        match pattern_captures(&rs[i].from, url) {
            Some(g) => {
                let target = expand_backrefs(rs[i].to.as_str(), &g);
                return Some(target);
            },
            None => {
                assert(s.drop_first() =~= all.skip(i + 1));
            },
        }
        i = i + 1;
    }
    assert(all.skip(i as int) =~= Seq::<(Seq<char>, Seq<char>)>::empty());
    None
}

// ---------------------------------------------------------------------------
// Merging header edits: the latest edit of a name wins
// ---------------------------------------------------------------------------

/// `s` without the edits whose name equals `name` up to ASCII case.
pub open spec fn remove_named(s: Seq<ActionView>, name: Seq<char>) -> Seq<ActionView>
    decreases s.len(),
{
    if s.len() == 0 {
        s
    } else {
        let prev = remove_named(s.drop_last(), name);
        if ci_eq(s.last().name, name) {
            prev
        } else {
            prev.push(s.last())
        }
    }
}

/// `into` with edit `a` replacing any edit of the same name.
pub open spec fn merge_one(into: Seq<ActionView>, a: ActionView) -> Seq<ActionView> {
    remove_named(into, a.name).push(a)
}

/// `into` with the edits of `from` merged in, one after another.
pub open spec fn merge(into: Seq<ActionView>, from: Seq<ActionView>) -> Seq<ActionView>
    decreases from.len(),
{
    if from.len() == 0 {
        into
    } else {
        merge_one(merge(into, from.drop_last()), from.last())
    }
}

fn remove_named_exec(v: &Vec<HeaderAction>, name: &[char]) -> (r: Vec<HeaderAction>)
    ensures
        actions_view(r@) == remove_named(actions_view(v@), name@),
{
    let mut out: Vec<HeaderAction> = Vec::new();
    let mut i: usize = 0;
    assert(actions_view(v@).take(0) =~= Seq::<ActionView>::empty());
    while i < v.len()
        invariant
            i <= v@.len(),
            actions_view(out@) =~= remove_named(actions_view(v@).take(i as int), name@),
        decreases v@.len() - i,
    {
        proof {
            assert(actions_view(v@).take(i + 1).drop_last() =~= actions_view(v@).take(i as int));
        }
        let e = &v[i];
        if !eq_ignore_ascii_case(&to_chars(e.name.as_str()), name) {
            out.push(copy_action(e));
        }
        i = i + 1;
    }
    assert(actions_view(v@).take(v@.len() as int) =~= actions_view(v@));
    out
}

/// Appends the edits of `from`, each replacing any earlier edit of the same
/// header name (ASCII case-insensitive), so the latest edit wins.
fn merge_headers(into: &mut Vec<HeaderAction>, from: &Vec<HeaderAction>)
    ensures
        actions_view(final(into)@) == merge(actions_view(old(into)@), actions_view(from@)),
{
    let ghost start = actions_view(into@);
    let mut i: usize = 0;
    assert(actions_view(from@).take(0) =~= Seq::<ActionView>::empty());
    while i < from.len()
        invariant
            i <= from@.len(),
            start == actions_view(old(into)@),
            actions_view(into@) == merge(start, actions_view(from@).take(i as int)),
        decreases from@.len() - i,
    {
        proof {
            assert(actions_view(from@).take(i + 1).drop_last() =~= actions_view(from@).take(
                i as int,
            ));
        }
        let a = &from[i];
        let name = to_chars(a.name.as_str());
        let mut next = remove_named_exec(into, &name);
        next.push(copy_action(a));
        assert(actions_view(next@) =~= merge(start, actions_view(from@).take(i + 1)));
        *into = next;
        i = i + 1;
    }
    assert(actions_view(from@).take(from@.len() as int) =~= actions_view(from@));
}

// ---------------------------------------------------------------------------
// Plans
// ---------------------------------------------------------------------------

/// The plan after considering one more compiled profile: when it applies to
/// `url`, its first matching redirect is taken unless one was already found,
/// and its edits are merged in after the earlier ones.
pub open spec fn plan_step(acc: PlanView, r: ProfileRules, url: Seq<char>) -> PlanView {
    if !rule_matches(r, url) {
        acc
    } else {
        PlanView {
            redirect_to: if acc.redirect_to is None {
                first_redirect(r.redirects, url)
            } else {
                acc.redirect_to
            },
            request_headers: merge(acc.request_headers, r.req),
            response_headers: merge(acc.response_headers, r.resp),
        }
    }
}

/// The plan over a sequence of compiled profiles, in order.
pub open spec fn plan_over(rs: Seq<ProfileRules>, url: Seq<char>) -> PlanView
    decreases rs.len(),
{
    if rs.len() == 0 {
        empty_plan()
    } else {
        plan_step(plan_over(rs.drop_last(), url), rs.last(), url)
    }
}

/// The plan for a request to `url`: nothing while paused.
pub open spec fn spec_plan(c: RuleSet, url: Seq<char>) -> PlanView {
    if c.paused {
        empty_plan()
    } else {
        plan_over(c.profiles, url)
    }
}

/// The edits of every compiled profile, merged in order, with URL filters
/// and redirects left out.
pub open spec fn global_over(rs: Seq<ProfileRules>) -> PlanView
    decreases rs.len(),
{
    if rs.len() == 0 {
        empty_plan()
    } else {
        let acc = global_over(rs.drop_last());
        PlanView {
            redirect_to: None,
            request_headers: merge(acc.request_headers, rs.last().req),
            response_headers: merge(acc.response_headers, rs.last().resp),
        }
    }
}

/// Every configured edit regardless of URL filters: nothing while paused.
pub open spec fn spec_global_plan(c: RuleSet) -> PlanView {
    if c.paused {
        empty_plan()
    } else {
        global_over(c.profiles)
    }
}

impl Compiled {
    /// Decides what to do with a request to `url`. Later profiles override
    /// earlier ones on conflicting header names (last write wins); the first
    /// matching redirect wins.
    pub fn plan_for(&self, url: &str) -> (r: Plan)
        ensures
            r@ == spec_plan(self@, url@),
    {
        if self.paused {
            return new_empty_plan();
        }
        let ghost rs = profiles_view(self.profiles@);
        let mut redirect_to: Option<String> = None;
        let mut req: Vec<HeaderAction> = Vec::new();
        let mut resp: Vec<HeaderAction> = Vec::new();
        let mut i: usize = 0;
        assert(rs.take(0) =~= Seq::<ProfileRules>::empty());
        assert(actions_view(req@) =~= Seq::<ActionView>::empty());
        assert(actions_view(resp@) =~= Seq::<ActionView>::empty());
        while i < self.profiles.len()
            invariant
                i <= self.profiles@.len(),
                rs == profiles_view(self.profiles@),
                (PlanView {
                    redirect_to: opt_view(redirect_to),
                    request_headers: actions_view(req@),
                    response_headers: actions_view(resp@),
                }) == plan_over(rs.take(i as int), url@),
            decreases self.profiles@.len() - i,
        {
            proof {
                assert(rs.take(i + 1).drop_last() =~= rs.take(i as int));
                assert(rs.take(i + 1).last() == self.profiles@[i as int]@);
            }
            let p = &self.profiles[i];
            if p.matches(url) {
                if redirect_to.is_none() {
                    redirect_to = first_redirect_exec(&p.redirects, url);
                }
                merge_headers(&mut req, &p.req_headers);
                merge_headers(&mut resp, &p.resp_headers);
            }
            i = i + 1;
        }
        assert(rs.take(self.profiles@.len() as int) =~= rs);
        Plan { redirect_to, request_headers: req, response_headers: resp }
    }

    /// Every configured header edit, with URL filters ignored (for the
    /// inspector page when no URL is given).
    pub fn global_plan(&self) -> (r: Plan)
        ensures
            r@ == spec_global_plan(self@),
    {
        if self.paused {
            return new_empty_plan();
        }
        let ghost rs = profiles_view(self.profiles@);
        let mut req: Vec<HeaderAction> = Vec::new();
        let mut resp: Vec<HeaderAction> = Vec::new();
        let mut i: usize = 0;
        assert(rs.take(0) =~= Seq::<ProfileRules>::empty());
        assert(actions_view(req@) =~= Seq::<ActionView>::empty());
        assert(actions_view(resp@) =~= Seq::<ActionView>::empty());
        while i < self.profiles.len()
            invariant
                i <= self.profiles@.len(),
                rs == profiles_view(self.profiles@),
                (PlanView {
                    redirect_to: None,
                    request_headers: actions_view(req@),
                    response_headers: actions_view(resp@),
                }) == global_over(rs.take(i as int)),
            decreases self.profiles@.len() - i,
        {
            proof {
                assert(rs.take(i + 1).drop_last() =~= rs.take(i as int));
                assert(rs.take(i + 1).last() == self.profiles@[i as int]@);
            }
            let p = &self.profiles[i];
            merge_headers(&mut req, &p.req_headers);
            merge_headers(&mut resp, &p.resp_headers);
            i = i + 1;
        }
        assert(rs.take(self.profiles@.len() as int) =~= rs);
        Plan { redirect_to: None, request_headers: req, response_headers: resp }
    }
}

// ---------------------------------------------------------------------------
// Laws of merging and planning
// ---------------------------------------------------------------------------

/// No two edits in `s` name the same header (ASCII case-insensitively).
pub open spec fn distinct_names(s: Seq<ActionView>) -> bool {
    forall|i: int, j: int|
        0 <= i < j < s.len() ==> !ci_eq(#[trigger] s[i].name, #[trigger] s[j].name)
}

/// What `remove_named` keeps: exactly the edits of another name, in order.
pub proof fn lemma_remove_named(s: Seq<ActionView>, name: Seq<char>)
    ensures
        forall|i: int|
            0 <= i < remove_named(s, name).len() ==> s.contains(
                #[trigger] remove_named(s, name)[i],
            ) && !ci_eq(remove_named(s, name)[i].name, name),
        forall|i: int|
            0 <= i < s.len() && !ci_eq(#[trigger] s[i].name, name) ==> remove_named(
                s,
                name,
            ).contains(s[i]),
        distinct_names(s) ==> distinct_names(remove_named(s, name)),
    decreases s.len(),
{
    if s.len() > 0 {
        let t = s.drop_last();
        lemma_remove_named(t, name);
        let p = remove_named(t, name);
        let r = remove_named(s, name);
        assert forall|i: int| 0 <= i < r.len() implies s.contains(#[trigger] r[i]) && !ci_eq(
            r[i].name,
            name,
        ) by {
            if i < p.len() {
                assert(r[i] == p[i]);
                let k = choose|k: int| 0 <= k < t.len() && t[k] == p[i];
                assert(s[k] == p[i]);
            } else {
                assert(r[i] == s.last());
                assert(s[s.len() - 1] == s.last());
            }
        }
        assert forall|i: int| 0 <= i < s.len() && !ci_eq(#[trigger] s[i].name, name) implies r.contains(
            s[i],
        ) by {
            if i < t.len() {
                assert(t[i] == s[i]);
                assert(p.contains(t[i]));
                let k = choose|k: int| 0 <= k < p.len() && p[k] == t[i];
                assert(r[k] == p[k]);
            } else {
                assert(r[r.len() - 1] == s[i]);
            }
        }
        if distinct_names(s) {
            assert(distinct_names(t)) by {
                assert forall|i: int, j: int| 0 <= i < j < t.len() implies !ci_eq(
                    #[trigger] t[i].name,
                    #[trigger] t[j].name,
                ) by {
                    assert(s[i] == t[i] && s[j] == t[j]);
                }
            }
            if !ci_eq(s.last().name, name) {
                assert forall|i: int, j: int| 0 <= i < j < r.len() implies !ci_eq(
                    #[trigger] r[i].name,
                    #[trigger] r[j].name,
                ) by {
                    if j < p.len() {
                        assert(r[i] == p[i] && r[j] == p[j]);
                    } else {
                        assert(r[j] == s.last());
                        assert(r[i] == p[i]);
                        let k = choose|k: int| 0 <= k < t.len() && t[k] == p[i];
                        assert(s[k] == t[k]);
                        assert(s[s.len() - 1] == s.last());
                        assert(!ci_eq(s[k].name, s[s.len() - 1].name));
                    }
                }
            }
        }
    }
}

/// Merging keeps header names distinct.
pub proof fn lemma_merge_distinct(into: Seq<ActionView>, from: Seq<ActionView>)
    requires
        distinct_names(into),
    ensures
        distinct_names(merge(into, from)),
    decreases from.len(),
{
    if from.len() > 0 {
        lemma_merge_distinct(into, from.drop_last());
        let m = merge(into, from.drop_last());
        let a = from.last();
        lemma_remove_named(m, a.name);
        let p = remove_named(m, a.name);
        let r = p.push(a);
        assert forall|i: int, j: int| 0 <= i < j < r.len() implies !ci_eq(
            #[trigger] r[i].name,
            #[trigger] r[j].name,
        ) by {
            if j < p.len() {
                assert(r[i] == p[i] && r[j] == p[j]);
            } else {
                assert(r[i] == p[i]);
                assert(!ci_eq(p[i].name, a.name));
            }
        }
    }
}

/// An edit of `from` that no later edit of `from` renames over is kept.
proof fn lemma_merge_keeps_last(into: Seq<ActionView>, from: Seq<ActionView>, k: int)
    requires
        0 <= k < from.len(),
        forall|j: int| k < j < from.len() ==> !ci_eq(#[trigger] from[j].name, from[k].name),
    ensures
        merge(into, from).contains(from[k]),
    decreases from.len(),
{
    let f = from.drop_last();
    let m = merge(into, f);
    let n = from.len() - 1;
    let a = from[n];
    assert(from.last() == a);
    let p = remove_named(m, a.name);
    let r = merge(into, from);
    assert(r == p.push(a));
    if k == n {
        assert(r[r.len() - 1] == a);
    } else {
        assert(f[k] == from[k]);
        assert forall|j: int| k < j < f.len() implies !ci_eq(#[trigger] f[j].name, f[k].name) by {
            assert(f[j] == from[j]);
        }
        lemma_merge_keeps_last(into, f, k);
        assert(!ci_eq(from[n].name, from[k].name));
        let i = choose|i: int| 0 <= i < m.len() && m[i] == f[k];
        assert(!ci_eq(m[i].name, a.name));
        lemma_remove_named(m, a.name);
        assert(p.contains(m[i]));
        let q = choose|q: int| 0 <= q < p.len() && p[q] == m[i];
        assert(r[q] == p[q]);
    }
}

/// Where an edit of a merge comes from.
pub open spec fn merged_from(into: Seq<ActionView>, from: Seq<ActionView>, x: ActionView) -> bool {
    ||| exists|k: int|
        0 <= k < from.len() && #[trigger] from[k] == x && (forall|j: int|
            k < j < from.len() ==> !ci_eq(#[trigger] from[j].name, x.name))
    ||| into.contains(x) && (forall|k: int|
        0 <= k < from.len() ==> !ci_eq(#[trigger] from[k].name, x.name))
}

proof fn lemma_merge_origin(into: Seq<ActionView>, from: Seq<ActionView>, x: ActionView)
    requires
        merge(into, from).contains(x),
    ensures
        merged_from(into, from, x),
    decreases from.len(),
{
    if from.len() > 0 {
        let f = from.drop_last();
        let m = merge(into, f);
        let n = from.len() - 1;
        let a = from[n];
        assert(from.last() == a);
        let p = remove_named(m, a.name);
        let r = merge(into, from);
        assert(r == p.push(a));
        let i = choose|i: int| 0 <= i < r.len() && r[i] == x;
        if i == r.len() - 1 {
            assert(from[n] == x);
        } else {
            assert(r[i] == p[i]);
            lemma_remove_named(m, a.name);
            assert(m.contains(x) && !ci_eq(x.name, a.name));
            lemma_merge_origin(into, f, x);
            if exists|k: int|
                0 <= k < f.len() && #[trigger] f[k] == x && (forall|j: int|
                    k < j < f.len() ==> !ci_eq(#[trigger] f[j].name, x.name)) {
                let k = choose|k: int|
                    0 <= k < f.len() && #[trigger] f[k] == x && (forall|j: int|
                        k < j < f.len() ==> !ci_eq(#[trigger] f[j].name, x.name));
                assert(from[k] == x);
                assert forall|j: int| k < j < from.len() implies !ci_eq(
                    #[trigger] from[j].name,
                    x.name,
                ) by {
                    if j < n {
                        assert(f[j] == from[j]);
                    }
                }
            } else {
                assert forall|k: int| 0 <= k < from.len() implies !ci_eq(
                    #[trigger] from[k].name,
                    x.name,
                ) by {
                    if k < n {
                        assert(f[k] == from[k]);
                    }
                }
            }
        }
    }
}

/// Last write wins: an edit of `from` that no later edit of `from` renames
/// over is in the merge; and every edit in the merge is either such a last
/// edit of `from`, or an edit of `into` whose name `from` does not touch.
pub proof fn lemma_merge_last_write_wins(into: Seq<ActionView>, from: Seq<ActionView>)
    ensures
        forall|k: int|
            0 <= k < from.len() && (forall|j: int|
                k < j < from.len() ==> !ci_eq(#[trigger] from[j].name, from[k].name))
                ==> merge(into, from).contains(#[trigger] from[k]),
        forall|x: ActionView| #[trigger]
            merge(into, from).contains(x) ==> merged_from(into, from, x),
{
    assert forall|k: int|
        0 <= k < from.len() && (forall|j: int|
            k < j < from.len() ==> !ci_eq(#[trigger] from[j].name, from[k].name)) implies merge(
        into,
        from,
    ).contains(#[trigger] from[k]) by {
        lemma_merge_keeps_last(into, from, k);
    }
    assert forall|x: ActionView| #[trigger]
        merge(into, from).contains(x) implies merged_from(into, from, x) by {
        lemma_merge_origin(into, from, x);
    }
}

/// The edits of any plan name each header at most once.
pub proof fn lemma_plan_names_distinct(c: RuleSet, url: Seq<char>)
    ensures
        distinct_names(spec_plan(c, url).request_headers),
        distinct_names(spec_plan(c, url).response_headers),
{
    if !c.paused {
        lemma_plan_over_distinct(c.profiles, url);
    }
}

proof fn lemma_plan_over_distinct(rs: Seq<ProfileRules>, url: Seq<char>)
    ensures
        distinct_names(plan_over(rs, url).request_headers),
        distinct_names(plan_over(rs, url).response_headers),
    decreases rs.len(),
{
    if rs.len() > 0 {
        lemma_plan_over_distinct(rs.drop_last(), url);
        let acc = plan_over(rs.drop_last(), url);
        lemma_merge_distinct(acc.request_headers, rs.last().req);
        lemma_merge_distinct(acc.response_headers, rs.last().resp);
    }
}

/// A paused ruleset plans nothing for any URL.
pub proof fn lemma_paused_plans_nothing(c: RuleSet, url: Seq<char>)
    requires
        c.paused,
    ensures
        spec_plan(c, url) == empty_plan(),
{
}

/// A profile that an exclude expression matches leaves the plan as it is.
pub proof fn lemma_excluded_profile_ignored(acc: PlanView, r: ProfileRules, url: Seq<char>)
    requires
        any_matches(r.excludes, url),
    ensures
        plan_step(acc, r, url) == acc,
{
}

/// A profile with include expressions of which none matches leaves the plan
/// as it is.
pub proof fn lemma_unincluded_profile_ignored(acc: PlanView, r: ProfileRules, url: Seq<char>)
    requires
        r.includes.len() > 0,
        !any_matches(r.includes, url),
    ensures
        plan_step(acc, r, url) == acc,
{
}

/// What a profile that applies to `url` adds to the plan: its edits merged
/// in after those before it, and its first matching redirect unless one was
/// chosen already.
pub open spec fn applied_step(acc: PlanView, r: ProfileRules, url: Seq<char>) -> PlanView {
    PlanView {
        redirect_to: if acc.redirect_to is None {
            first_redirect(r.redirects, url)
        } else {
            acc.redirect_to
        },
        request_headers: merge(acc.request_headers, r.req),
        response_headers: merge(acc.response_headers, r.resp),
    }
}

/// One matching include expression is enough: a profile that no exclude
/// expression matches applies to `url` as soon as any one of its include
/// expressions matches it, whatever the others do.
pub proof fn lemma_one_include_match_applies(acc: PlanView, r: ProfileRules, url: Seq<char>, i: int)
    requires
        0 <= i < r.includes.len(),
        regex_is_match(r.includes[i], url),
        forall|j: int| 0 <= j < r.excludes.len() ==> !regex_is_match(#[trigger] r.excludes[j], url),
    ensures
        plan_step(acc, r, url) == applied_step(acc, r, url),
{
}

/// A profile without include expressions applies to every URL that no
/// exclude expression matches.
pub proof fn lemma_no_includes_applies(acc: PlanView, r: ProfileRules, url: Seq<char>)
    requires
        r.includes.len() == 0,
        forall|j: int| 0 <= j < r.excludes.len() ==> !regex_is_match(#[trigger] r.excludes[j], url),
    ensures
        plan_step(acc, r, url) == applied_step(acc, r, url),
{
}

/// Once a redirect is chosen, later profiles do not change it.
pub proof fn lemma_first_redirect_kept(acc: PlanView, r: ProfileRules, url: Seq<char>)
    requires
        acc.redirect_to is Some,
    ensures
        plan_step(acc, r, url).redirect_to == acc.redirect_to,
{
}

// ---------------------------------------------------------------------------
// Laws of compiling
// ---------------------------------------------------------------------------

/// An edit is well formed: a valid header name, and `Remove` exactly when the
/// value is empty.
pub open spec fn well_formed_action(a: ActionView) -> bool {
    valid_header_name(a.name) && (a.op == HeaderOp::Remove <==> a.value.len() == 0)
}

/// Every edit in `s` is well formed.
pub open spec fn all_well_formed(s: Seq<ActionView>) -> bool {
    forall|i: int| 0 <= i < s.len() ==> well_formed_action(#[trigger] s[i])
}

/// Header rows compile to well-formed edits only.
pub proof fn lemma_row_actions_well_formed(rows: Seq<Header>)
    ensures
        all_well_formed(row_actions(rows)),
    decreases rows.len(),
{
    if rows.len() > 0 {
        lemma_row_actions_well_formed(rows.drop_last());
    }
}

/// Every edit of every compiled profile is well formed: an empty value
/// removes the header, any other value sets it, and names are valid.
pub proof fn lemma_compiled_edits_well_formed(ps: Seq<Profile>)
    ensures
        forall|i: int|
            0 <= i < compiled_rules(ps).len() ==> all_well_formed(
                (#[trigger] compiled_rules(ps)[i]).req,
            ) && all_well_formed(compiled_rules(ps)[i].resp),
    decreases ps.len(),
{
    if ps.len() > 0 {
        lemma_compiled_edits_well_formed(ps.drop_last());
        let p = ps.last();
        lemma_row_actions_well_formed(p.headers@);
        lemma_row_actions_well_formed(p.resp_headers@);
        let prev = compiled_rules(ps.drop_last());
        let all = compiled_rules(ps);
        assert forall|i: int| 0 <= i < all.len() implies all_well_formed(
            (#[trigger] all[i]).req,
        ) && all_well_formed(all[i].resp) by {
            if i < prev.len() {
                assert(all[i] == prev[i]);
            }
        }
    }
}

/// Merging well-formed edits gives well-formed edits.
pub proof fn lemma_merge_well_formed(into: Seq<ActionView>, from: Seq<ActionView>)
    requires
        all_well_formed(into),
        all_well_formed(from),
    ensures
        all_well_formed(merge(into, from)),
{
    let r = merge(into, from);
    assert forall|i: int| 0 <= i < r.len() implies well_formed_action(#[trigger] r[i]) by {
        assert(r.contains(r[i]));
        lemma_merge_origin(into, from, r[i]);
    }
}

/// The plan for a compiled state only holds well-formed edits.
pub proof fn lemma_plan_edits_well_formed(paused: bool, ps: Seq<Profile>, url: Seq<char>)
    ensures
        all_well_formed(spec_plan(compiled_view(paused, ps), url).request_headers),
        all_well_formed(spec_plan(compiled_view(paused, ps), url).response_headers),
{
    lemma_compiled_edits_well_formed(ps);
    if !paused {
        lemma_plan_over_well_formed(compiled_rules(ps), url);
    }
}

proof fn lemma_plan_over_well_formed(rs: Seq<ProfileRules>, url: Seq<char>)
    requires
        forall|i: int|
            0 <= i < rs.len() ==> all_well_formed((#[trigger] rs[i]).req) && all_well_formed(
                rs[i].resp,
            ),
    ensures
        all_well_formed(plan_over(rs, url).request_headers),
        all_well_formed(plan_over(rs, url).response_headers),
    decreases rs.len(),
{
    if rs.len() > 0 {
        let t = rs.drop_last();
        assert forall|i: int| 0 <= i < t.len() implies all_well_formed(
            (#[trigger] t[i]).req,
        ) && all_well_formed(t[i].resp) by {
            assert(t[i] == rs[i]);
        }
        lemma_plan_over_well_formed(t, url);
        let acc = plan_over(t, url);
        assert(rs.last() == rs[rs.len() - 1]);
        lemma_merge_well_formed(acc.request_headers, rs.last().req);
        lemma_merge_well_formed(acc.response_headers, rs.last().resp);
    }
}

proof fn lemma_no_compiling_source(fs: Seq<Filter>, kind: Seq<char>)
    requires
        forall|i: int|
            0 <= i < fs.len() && filter_selected(#[trigger] fs[i], kind) ==> regex_error(
                fs[i].value@,
            ) is Some,
    ensures
        filter_sources(fs, kind).len() == 0,
    decreases fs.len(),
{
    if fs.len() > 0 {
        let t = fs.drop_last();
        assert forall|i: int| 0 <= i < t.len() && filter_selected(#[trigger] t[i], kind) implies regex_error(
            t[i].value@,
        ) is Some by {
            assert(t[i] == fs[i]);
        }
        lemma_no_compiling_source(t, kind);
        assert(fs.last() == fs[fs.len() - 1]);
    }
}

/// A profile that declares include filters none of which compiles is
/// disabled rather than applied to every URL.
pub proof fn lemma_invalid_includes_disable_profile(p: Profile)
    requires
        include_declared(p.filters@),
        forall|i: int|
            0 <= i < p.filters@.len() && filter_selected(#[trigger] p.filters@[i], "include"@)
                ==> regex_error(p.filters@[i].value@) is Some,
    ensures
        profile_rules(p) is None,
{
    lemma_no_compiling_source(p.filters@, "include"@);
}

/// A disabled profile compiles to nothing and reports nothing.
pub proof fn lemma_disabled_profile_ignored(p: Profile)
    requires
        !p.enabled,
    ensures
        profile_rules(p) is None,
        profile_errors(p) == Seq::<Seq<char>>::empty(),
{
}

/// A filter that matches URLs: of kind `include` or `exclude`.
pub open spec fn is_url_filter(f: Filter) -> bool {
    f.kind@ == "include"@ || f.kind@ == "exclude"@
}

/// The URL filters among `fs`, in order.
pub open spec fn url_filters(fs: Seq<Filter>) -> Seq<Filter>
    decreases fs.len(),
{
    if fs.len() == 0 {
        fs
    } else {
        let prev = url_filters(fs.drop_last());
        if is_url_filter(fs.last()) {
            prev.push(fs.last())
        } else {
            prev
        }
    }
}

proof fn lemma_include_declared_push(s: Seq<Filter>, x: Filter)
    ensures
        include_declared(s.push(x)) == (include_declared(s) || filter_selected(x, "include"@)),
{
    let t = s.push(x);
    if include_declared(s) {
        let i = choose|i: int| 0 <= i < s.len() && filter_selected(#[trigger] s[i], "include"@);
        assert(t[i] == s[i]);
    }
    if filter_selected(x, "include"@) {
        assert(t[s.len() as int] == x);
    }
    if include_declared(t) {
        let i = choose|i: int| 0 <= i < t.len() && filter_selected(#[trigger] t[i], "include"@);
        if i < s.len() {
            assert(t[i] == s[i]);
        }
    }
}

proof fn lemma_url_filters_decide(fs: Seq<Filter>)
    ensures
        filter_sources(url_filters(fs), "include"@) == filter_sources(fs, "include"@),
        filter_sources(url_filters(fs), "exclude"@) == filter_sources(fs, "exclude"@),
        filter_errors(url_filters(fs), "include"@) == filter_errors(fs, "include"@),
        filter_errors(url_filters(fs), "exclude"@) == filter_errors(fs, "exclude"@),
        include_declared(url_filters(fs)) == include_declared(fs),
    decreases fs.len(),
{
    if fs.len() == 0 {
    } else {
        let d = fs.drop_last();
        let x = fs.last();
        lemma_url_filters_decide(d);
        assert(fs =~= d.push(x));
        lemma_include_declared_push(d, x);
        let prev = url_filters(d);
        if is_url_filter(x) {
            assert(prev.push(x).drop_last() =~= prev);
            lemma_include_declared_push(prev, x);
        }
    }
}

/// Filters of other kinds than `include` and `exclude` (such as the
/// extension's resource-type filters) are accepted but ignored: two profiles
/// that differ only in them compile alike and report the same errors.
pub proof fn lemma_other_filters_ignored(p: Profile, q: Profile)
    requires
        p.enabled == q.enabled,
        p.title@ == q.title@,
        p.headers@ == q.headers@,
        p.resp_headers@ == q.resp_headers@,
        p.redirects@ == q.redirects@,
        url_filters(p.filters@) == url_filters(q.filters@),
    ensures
        profile_rules(p) == profile_rules(q),
        profile_errors(p) == profile_errors(q),
{
    lemma_url_filters_decide(p.filters@);
    lemma_url_filters_decide(q.filters@);
}

proof fn lemma_global_over_all_match(rs: Seq<ProfileRules>, url: Seq<char>)
    requires
        forall|i: int| 0 <= i < rs.len() ==> rule_matches(#[trigger] rs[i], url),
    ensures
        global_over(rs).request_headers == plan_over(rs, url).request_headers,
        global_over(rs).response_headers == plan_over(rs, url).response_headers,
    decreases rs.len(),
{
    if rs.len() > 0 {
        let d = rs.drop_last();
        assert forall|i: int| 0 <= i < d.len() implies rule_matches(#[trigger] d[i], url) by {
            assert(d[i] == rs[i]);
        }
        lemma_global_over_all_match(d, url);
        assert(rule_matches(rs[rs.len() - 1], url));
    }
}

/// The edits listed regardless of URL filters are the edits planned for a
/// URL that every compiled profile applies to.
pub proof fn lemma_global_plan_is_plan_where_all_apply(c: RuleSet, url: Seq<char>)
    requires
        forall|i: int| 0 <= i < c.profiles.len() ==> rule_matches(#[trigger] c.profiles[i], url),
    ensures
        spec_global_plan(c).request_headers == spec_plan(c, url).request_headers,
        spec_global_plan(c).response_headers == spec_plan(c, url).response_headers,
{
    lemma_global_over_all_match(c.profiles, url);
}

// ---------------------------------------------------------------------------
// What compiling reads of a state
// ---------------------------------------------------------------------------

/// Two header rows alike in all that compiling reads (the comment aside).
pub open spec fn header_alike(a: Header, b: Header) -> bool {
    a.enabled == b.enabled && a.name@ == b.name@ && a.value@ == b.value@
}

/// Two sequences of header rows alike row by row.
pub open spec fn headers_alike(s: Seq<Header>, t: Seq<Header>) -> bool {
    s.len() == t.len() && forall|i: int| 0 <= i < s.len() ==> #[trigger] header_alike(s[i], t[i])
}

/// Two filters alike in all that compiling reads.
pub open spec fn filter_alike(a: Filter, b: Filter) -> bool {
    a.enabled == b.enabled && a.kind@ == b.kind@ && a.value@ == b.value@
}

/// Two sequences of filters alike filter by filter.
pub open spec fn filters_alike(s: Seq<Filter>, t: Seq<Filter>) -> bool {
    s.len() == t.len() && forall|i: int| 0 <= i < s.len() ==> #[trigger] filter_alike(s[i], t[i])
}

/// Two redirects alike in all that compiling reads.
pub open spec fn redirect_alike(a: Redirect, b: Redirect) -> bool {
    a.enabled == b.enabled && a.from@ == b.from@ && a.to@ == b.to@
}

/// Two sequences of redirects alike redirect by redirect.
pub open spec fn redirects_alike(s: Seq<Redirect>, t: Seq<Redirect>) -> bool {
    s.len() == t.len() && forall|i: int| 0 <= i < s.len() ==> #[trigger] redirect_alike(s[i], t[i])
}

/// Two profiles alike in all that compiling reads: the same switch, title,
/// rows and redirects, and the same URL filters. Colors, comments and
/// filters of other kinds may differ.
pub open spec fn profile_alike(p: Profile, q: Profile) -> bool {
    &&& p.enabled == q.enabled
    &&& p.title@ == q.title@
    &&& headers_alike(p.headers@, q.headers@)
    &&& headers_alike(p.resp_headers@, q.resp_headers@)
    &&& redirects_alike(p.redirects@, q.redirects@)
    &&& filters_alike(url_filters(p.filters@), url_filters(q.filters@))
}

/// Two sequences of profiles alike profile by profile.
pub open spec fn profiles_alike(s: Seq<Profile>, t: Seq<Profile>) -> bool {
    s.len() == t.len() && forall|i: int| 0 <= i < s.len() ==> #[trigger] profile_alike(s[i], t[i])
}

/// The enabled profiles, in order.
pub open spec fn enabled_profiles(ps: Seq<Profile>) -> Seq<Profile>
    decreases ps.len(),
{
    if ps.len() == 0 {
        ps
    } else if ps.last().enabled {
        enabled_profiles(ps.drop_last()).push(ps.last())
    } else {
        enabled_profiles(ps.drop_last())
    }
}

proof fn lemma_headers_alike(s: Seq<Header>, t: Seq<Header>)
    requires
        headers_alike(s, t),
    ensures
        row_actions(s) == row_actions(t),
        row_errors(s) == row_errors(t),
    decreases s.len(),
{
    if s.len() > 0 {
        let (a, b) = (s.drop_last(), t.drop_last());
        assert forall|i: int| 0 <= i < a.len() implies #[trigger] header_alike(a[i], b[i]) by {
            assert(header_alike(s[i], t[i]));
        }
        lemma_headers_alike(a, b);
        assert(header_alike(s[s.len() - 1], t[t.len() - 1]));
        assert(row_outcome(s.last()) == row_outcome(t.last()));
    }
}

proof fn lemma_filters_alike(s: Seq<Filter>, t: Seq<Filter>, kind: Seq<char>)
    requires
        filters_alike(s, t),
    ensures
        filter_sources(s, kind) == filter_sources(t, kind),
        filter_errors(s, kind) == filter_errors(t, kind),
        include_declared(s) == include_declared(t),
    decreases s.len(),
{
    if s.len() > 0 {
        let (a, b) = (s.drop_last(), t.drop_last());
        assert forall|i: int| 0 <= i < a.len() implies #[trigger] filter_alike(a[i], b[i]) by {
            assert(filter_alike(s[i], t[i]));
        }
        lemma_filters_alike(a, b, kind);
        assert(filter_alike(s[s.len() - 1], t[t.len() - 1]));
    }
    if include_declared(s) {
        let i = choose|i: int| 0 <= i < s.len() && filter_selected(#[trigger] s[i], "include"@);
        assert(filter_alike(s[i], t[i]));
        assert(filter_selected(t[i], "include"@));
    }
    if include_declared(t) {
        let i = choose|i: int| 0 <= i < t.len() && filter_selected(#[trigger] t[i], "include"@);
        assert(filter_alike(s[i], t[i]));
        assert(filter_selected(s[i], "include"@));
    }
}

proof fn lemma_redirects_alike(s: Seq<Redirect>, t: Seq<Redirect>)
    requires
        redirects_alike(s, t),
    ensures
        redirect_rules(s) == redirect_rules(t),
        redirect_errors(s) == redirect_errors(t),
    decreases s.len(),
{
    if s.len() > 0 {
        let (a, b) = (s.drop_last(), t.drop_last());
        assert forall|i: int| 0 <= i < a.len() implies #[trigger] redirect_alike(a[i], b[i]) by {
            assert(redirect_alike(s[i], t[i]));
        }
        lemma_redirects_alike(a, b);
        assert(redirect_alike(s[s.len() - 1], t[t.len() - 1]));
    }
}

/// Profiles alike in all that compiling reads compile alike and report the
/// same errors.
pub proof fn lemma_profiles_alike_compile_alike(p: Profile, q: Profile)
    requires
        profile_alike(p, q),
    ensures
        profile_rules(p) == profile_rules(q),
        profile_errors(p) == profile_errors(q),
{
    lemma_url_filters_decide(p.filters@);
    lemma_url_filters_decide(q.filters@);
    lemma_filters_alike(url_filters(p.filters@), url_filters(q.filters@), "include"@);
    lemma_filters_alike(url_filters(p.filters@), url_filters(q.filters@), "exclude"@);
    lemma_headers_alike(p.headers@, q.headers@);
    lemma_headers_alike(p.resp_headers@, q.resp_headers@);
    lemma_redirects_alike(p.redirects@, q.redirects@);
}

proof fn lemma_only_enabled_compile(ps: Seq<Profile>)
    ensures
        compiled_rules(ps) == compiled_rules(enabled_profiles(ps)),
        compiled_errors(ps) == compiled_errors(enabled_profiles(ps)),
        compiled_count(ps) == compiled_count(enabled_profiles(ps)),
    decreases ps.len(),
{
    if ps.len() > 0 {
        let d = ps.drop_last();
        let x = ps.last();
        lemma_only_enabled_compile(d);
        if x.enabled {
            let e = enabled_profiles(d).push(x);
            assert(e.drop_last() =~= enabled_profiles(d));
            assert(e.last() == x);
        } else {
            lemma_disabled_profile_ignored(x);
            assert(compiled_errors(d) + profile_errors(x) =~= compiled_errors(d));
        }
    }
}

proof fn lemma_alike_sequences_compile_alike(ps: Seq<Profile>, qs: Seq<Profile>)
    requires
        profiles_alike(ps, qs),
    ensures
        compiled_rules(ps) == compiled_rules(qs),
        compiled_errors(ps) == compiled_errors(qs),
        compiled_count(ps) == compiled_count(qs),
    decreases ps.len(),
{
    if ps.len() > 0 {
        let (a, b) = (ps.drop_last(), qs.drop_last());
        assert forall|i: int| 0 <= i < a.len() implies #[trigger] profile_alike(a[i], b[i]) by {
            assert(profile_alike(ps[i], qs[i]));
        }
        lemma_alike_sequences_compile_alike(a, b);
        assert(profile_alike(ps[ps.len() - 1], qs[qs.len() - 1]));
        lemma_profiles_alike_compile_alike(ps.last(), qs.last());
    }
}

/// Compiling reads only the enabled profiles, and of them only what
/// `profile_alike` compares: two states whose enabled profiles are alike,
/// one by one, compile to the same ruleset (rules, errors and count) under
/// the same pause switch. Disabled profiles may be added or removed, and
/// colors, header comments and filters other than URL filters may change;
/// the state's theme and selected profile are not read at all.
pub proof fn lemma_compile_reads_enabled_rules_only(paused: bool, ps: Seq<Profile>, qs: Seq<Profile>)
    requires
        profiles_alike(enabled_profiles(ps), enabled_profiles(qs)),
    ensures
        compiled_view(paused, ps) == compiled_view(paused, qs),
{
    lemma_only_enabled_compile(ps);
    lemma_only_enabled_compile(qs);
    lemma_alike_sequences_compile_alike(enabled_profiles(ps), enabled_profiles(qs));
}

proof fn lemma_profile_alike_self(p: Profile)
    ensures
        profile_alike(p, p),
{
    assert forall|i: int| 0 <= i < p.headers@.len() implies #[trigger] header_alike(
        p.headers@[i],
        p.headers@[i],
    ) by {}
    assert forall|i: int| 0 <= i < p.resp_headers@.len() implies #[trigger] header_alike(
        p.resp_headers@[i],
        p.resp_headers@[i],
    ) by {}
    assert forall|i: int| 0 <= i < p.redirects@.len() implies #[trigger] redirect_alike(
        p.redirects@[i],
        p.redirects@[i],
    ) by {}
    let u = url_filters(p.filters@);
    assert forall|i: int| 0 <= i < u.len() implies #[trigger] filter_alike(u[i], u[i]) by {}
}

/// Disabled profiles do not count: two states with the same enabled
/// profiles, in the same order, compile to the same ruleset.
pub proof fn lemma_disabled_profiles_ignored(paused: bool, ps: Seq<Profile>, qs: Seq<Profile>)
    requires
        enabled_profiles(ps) == enabled_profiles(qs),
    ensures
        compiled_view(paused, ps) == compiled_view(paused, qs),
{
    let e = enabled_profiles(ps);
    assert forall|i: int| 0 <= i < e.len() implies #[trigger] profile_alike(e[i], e[i]) by {
        lemma_profile_alike_self(e[i]);
    }
    lemma_compile_reads_enabled_rules_only(paused, ps, qs);
}

proof fn lemma_enabled_of_alike(ps: Seq<Profile>, qs: Seq<Profile>)
    requires
        profiles_alike(ps, qs),
    ensures
        profiles_alike(enabled_profiles(ps), enabled_profiles(qs)),
    decreases ps.len(),
{
    if ps.len() > 0 {
        let (a, b) = (ps.drop_last(), qs.drop_last());
        assert forall|i: int| 0 <= i < a.len() implies #[trigger] profile_alike(a[i], b[i]) by {
            assert(profile_alike(ps[i], qs[i]));
        }
        lemma_enabled_of_alike(a, b);
        assert(profile_alike(ps[ps.len() - 1], qs[qs.len() - 1]));
        let (ea, eb) = (enabled_profiles(a), enabled_profiles(b));
        if ps.last().enabled {
            let (x, y) = (ea.push(ps.last()), eb.push(qs.last()));
            assert forall|i: int| 0 <= i < x.len() implies #[trigger] profile_alike(x[i], y[i]) by {
                if i < ea.len() {
                    assert(profile_alike(ea[i], eb[i]));
                }
            }
        }
    }
}

/// Filters of other kinds than `include` and `exclude` are ignored in whole
/// states too: two states whose profiles differ only in such filters compile
/// to the same ruleset.
pub proof fn lemma_other_filters_ignored_in_states(paused: bool, ps: Seq<Profile>, qs: Seq<Profile>)
    requires
        ps.len() == qs.len(),
        forall|i: int|
            0 <= i < ps.len() ==> {
                &&& (#[trigger] ps[i]).enabled == qs[i].enabled
                &&& ps[i].title@ == qs[i].title@
                &&& ps[i].headers@ == qs[i].headers@
                &&& ps[i].resp_headers@ == qs[i].resp_headers@
                &&& ps[i].redirects@ == qs[i].redirects@
                &&& url_filters(ps[i].filters@) == url_filters(qs[i].filters@)
            },
    ensures
        compiled_view(paused, ps) == compiled_view(paused, qs),
{
    assert forall|i: int| 0 <= i < ps.len() implies #[trigger] profile_alike(ps[i], qs[i]) by {
        lemma_profile_alike_self(ps[i]);
    }
    lemma_enabled_of_alike(ps, qs);
    lemma_compile_reads_enabled_rules_only(paused, ps, qs);
}

// ---------------------------------------------------------------------------
// Plans over the profiles that apply
// ---------------------------------------------------------------------------

/// The request-header edits of the compiled profiles that apply to `url`,
/// one after the other in profile order.
pub open spec fn matching_req(rs: Seq<ProfileRules>, url: Seq<char>) -> Seq<ActionView>
    decreases rs.len(),
{
    if rs.len() == 0 {
        Seq::<ActionView>::empty()
    } else if rule_matches(rs.last(), url) {
        matching_req(rs.drop_last(), url) + rs.last().req
    } else {
        matching_req(rs.drop_last(), url)
    }
}

/// The response-header edits of the compiled profiles that apply to `url`,
/// one after the other in profile order.
pub open spec fn matching_resp(rs: Seq<ProfileRules>, url: Seq<char>) -> Seq<ActionView>
    decreases rs.len(),
{
    if rs.len() == 0 {
        Seq::<ActionView>::empty()
    } else if rule_matches(rs.last(), url) {
        matching_resp(rs.drop_last(), url) + rs.last().resp
    } else {
        matching_resp(rs.drop_last(), url)
    }
}

/// The redirects of the compiled profiles that apply to `url`, profile by
/// profile and in order within each profile.
pub open spec fn matching_redirects(rs: Seq<ProfileRules>, url: Seq<char>) -> Seq<
    (Seq<char>, Seq<char>),
>
    decreases rs.len(),
{
    if rs.len() == 0 {
        Seq::<(Seq<char>, Seq<char>)>::empty()
    } else if rule_matches(rs.last(), url) {
        matching_redirects(rs.drop_last(), url) + rs.last().redirects
    } else {
        matching_redirects(rs.drop_last(), url)
    }
}

/// Merging two runs of edits is merging their concatenation.
pub proof fn lemma_merge_concat(into: Seq<ActionView>, a: Seq<ActionView>, b: Seq<ActionView>)
    ensures
        merge(merge(into, a), b) == merge(into, a + b),
    decreases b.len(),
{
    if b.len() == 0 {
        assert(a + b =~= a);
    } else {
        lemma_merge_concat(into, a, b.drop_last());
        assert((a + b).drop_last() =~= a + b.drop_last());
        assert((a + b).last() == b.last());
    }
}

/// The first matching redirect of a concatenation is the first of its first
/// part, or else the first of its second part.
pub proof fn lemma_first_redirect_concat(
    a: Seq<(Seq<char>, Seq<char>)>,
    b: Seq<(Seq<char>, Seq<char>)>,
    url: Seq<char>,
)
    ensures
        first_redirect(a + b, url) == match first_redirect(a, url) {
            Some(t) => Some(t),
            None => first_redirect(b, url),
        },
    decreases a.len(),
{
    if a.len() == 0 {
        assert(a + b =~= b);
    } else {
        lemma_first_redirect_concat(a.drop_first(), b, url);
        assert((a + b).drop_first() =~= a.drop_first() + b);
        assert((a + b)[0] == a[0]);
    }
}

proof fn lemma_plan_over_matching(rs: Seq<ProfileRules>, url: Seq<char>)
    ensures
        plan_over(rs, url).request_headers == merge(
            Seq::<ActionView>::empty(),
            matching_req(rs, url),
        ),
        plan_over(rs, url).response_headers == merge(
            Seq::<ActionView>::empty(),
            matching_resp(rs, url),
        ),
        plan_over(rs, url).redirect_to == first_redirect(matching_redirects(rs, url), url),
    decreases rs.len(),
{
    if rs.len() > 0 {
        let d = rs.drop_last();
        let r = rs.last();
        lemma_plan_over_matching(d, url);
        if rule_matches(r, url) {
            lemma_merge_concat(Seq::<ActionView>::empty(), matching_req(d, url), r.req);
            lemma_merge_concat(Seq::<ActionView>::empty(), matching_resp(d, url), r.resp);
            lemma_first_redirect_concat(matching_redirects(d, url), r.redirects, url);
        }
    }
}

/// What a ruleset plans for `url`, when not paused, over the profiles that
/// apply to it: the request and response edits are the last-write-wins
/// merge of their edits in profile order (see `lemma_merge_last_write_wins`
/// for what such a merge keeps), and the redirect is the first of their
/// redirects, profile by profile, whose expression matches; a later match
/// never replaces it.
pub proof fn lemma_plan_over_applying_profiles(c: RuleSet, url: Seq<char>)
    requires
        !c.paused,
    ensures
        spec_plan(c, url).request_headers == merge(
            Seq::<ActionView>::empty(),
            matching_req(c.profiles, url),
        ),
        spec_plan(c, url).response_headers == merge(
            Seq::<ActionView>::empty(),
            matching_resp(c.profiles, url),
        ),
        spec_plan(c, url).redirect_to == first_redirect(matching_redirects(c.profiles, url), url),
{
    lemma_plan_over_matching(c.profiles, url);
}

// ---------------------------------------------------------------------------
// Last write wins, in order
// ---------------------------------------------------------------------------

/// No edit after position `i` of `a` names the same header as `a[i]`
/// (ASCII case-insensitively).
pub open spec fn is_last_write(a: Seq<ActionView>, i: int) -> bool {
    forall|j: int| i < j < a.len() ==> !ci_eq(#[trigger] a[j].name, a[i].name)
}

/// The edits of `a` that no later edit of the same name overrides, in the
/// order of `a`.
pub open spec fn last_writes(a: Seq<ActionView>) -> Seq<ActionView>
    decreases a.len(),
{
    if a.len() == 0 {
        a
    } else if is_last_write(a, 0) {
        seq![a[0]] + last_writes(a.drop_first())
    } else {
        last_writes(a.drop_first())
    }
}

proof fn lemma_remove_named_concat(p: Seq<ActionView>, q: Seq<ActionView>, name: Seq<char>)
    ensures
        remove_named(p + q, name) == remove_named(p, name) + remove_named(q, name),
    decreases q.len(),
{
    if q.len() == 0 {
        assert(p + q =~= p);
        assert(remove_named(p, name) + remove_named(q, name) =~= remove_named(p, name));
    } else {
        lemma_remove_named_concat(p, q.drop_last(), name);
        assert((p + q).drop_last() =~= p + q.drop_last());
        assert((p + q).last() == q.last());
        let rp = remove_named(p, name);
        let rq = remove_named(q.drop_last(), name);
        assert((rp + rq).push(q.last()) =~= rp + rq.push(q.last()));
    }
}

proof fn lemma_last_writes_push(d: Seq<ActionView>, x: ActionView)
    ensures
        last_writes(d.push(x)) == remove_named(last_writes(d), x.name).push(x),
    decreases d.len(),
{
    let a = d.push(x);
    if d.len() == 0 {
        assert(a.drop_first() =~= Seq::<ActionView>::empty());
        assert(last_writes(a.drop_first()) =~= Seq::<ActionView>::empty());
        assert(is_last_write(a, 0));
        assert(a[0] == x);
        assert(last_writes(d) =~= Seq::<ActionView>::empty());
        assert(remove_named(last_writes(d), x.name) =~= Seq::<ActionView>::empty());
        assert(seq![x] + Seq::<ActionView>::empty() =~= Seq::<ActionView>::empty().push(x));
    } else {
        let t = d.drop_first();
        lemma_last_writes_push(t, x);
        assert(a.drop_first() =~= t.push(x));
        assert(a[0] == d[0]);
        let h = seq![d[0]];
        assert(remove_named(h, x.name) == if ci_eq(d[0].name, x.name) {
            Seq::<ActionView>::empty()
        } else {
            h
        }) by {
            assert(h.drop_last() =~= Seq::<ActionView>::empty());
            assert(remove_named(h.drop_last(), x.name) =~= Seq::<ActionView>::empty());
            assert(h.last() == d[0]);
            assert(Seq::<ActionView>::empty().push(d[0]) =~= h);
        }
        let lt = last_writes(t);
        lemma_remove_named_concat(h, lt, x.name);
        assert(is_last_write(a, 0) == (is_last_write(d, 0) && !ci_eq(x.name, d[0].name))) by {
            if is_last_write(a, 0) {
                assert forall|j: int| 0 < j < d.len() implies !ci_eq(
                    #[trigger] d[j].name,
                    d[0].name,
                ) by {
                    assert(a[j] == d[j]);
                }
                assert(a[d.len() as int] == x);
            }
            if is_last_write(d, 0) && !ci_eq(x.name, d[0].name) {
                assert forall|j: int| 0 < j < a.len() implies !ci_eq(
                    #[trigger] a[j].name,
                    a[0].name,
                ) by {
                    if j < d.len() {
                        assert(a[j] == d[j]);
                    }
                }
            }
        }
        let r = remove_named(lt, x.name);
        if is_last_write(a, 0) {
            assert((h + r).push(x) =~= h + r.push(x));
        } else if is_last_write(d, 0) {
            assert(Seq::<ActionView>::empty() + r =~= r);
        }
    }
}

/// Merging edits into none keeps, of the edits, those that no later edit of
/// the same name overrides, in their order.
pub proof fn lemma_merge_is_last_writes(a: Seq<ActionView>)
    ensures
        merge(Seq::<ActionView>::empty(), a) == last_writes(a),
    decreases a.len(),
{
    if a.len() > 0 {
        lemma_merge_is_last_writes(a.drop_last());
        lemma_last_writes_push(a.drop_last(), a.last());
        assert(a.drop_last().push(a.last()) =~= a);
    }
}

/// What a ruleset plans for `url`, when not paused: the request (response)
/// edits are those of the profiles that apply to `url`, in profile order,
/// each kept only if no later one of them names the same header (ASCII
/// case-insensitively), in their order.
pub proof fn lemma_plan_keeps_last_writes(c: RuleSet, url: Seq<char>)
    requires
        !c.paused,
    ensures
        spec_plan(c, url).request_headers == last_writes(matching_req(c.profiles, url)),
        spec_plan(c, url).response_headers == last_writes(matching_resp(c.profiles, url)),
{
    lemma_plan_over_applying_profiles(c, url);
    lemma_merge_is_last_writes(matching_req(c.profiles, url));
    lemma_merge_is_last_writes(matching_resp(c.profiles, url));
}

} // verus!
