//! Git-based update-check for the dashboard.
//!
//! Compares the running build (the commit hash baked into the binary) against the tip of the
//! remote branch the source tree is checked out on — the same `origin/<branch>` an update
//! fast-forwards to. A fork branch (e.g. `miura`) is therefore told about its own
//! new commits, not about upstream releases an update would never bring in. This is purely
//! informational: we only surface an "update available" badge so the operator knows to click it.
//!
//! The check is best-effort: any git/network failure yields `UpdateCheck::unknown()`
//! rather than an error, so a flaky connection never breaks the dashboard.
//!
//! The check itself is a row of git commands, each of which depends on what the ones before it
//! printed. [`PendingCheck`] says which command comes next and what the outcome is; running the
//! commands is left to its caller.

use vstd::prelude::*;

use super::json;
use super::json::Json;
use crate::text;

verus! {

/// Result of an update check, serialised to JSON for the dashboard.
#[derive(Debug, Clone)]
pub struct UpdateCheck {
    /// Locally built version string (as-is, e.g. "v0.2.5-2aad62c8").
    pub current: String,
    /// Remote branch tip, if the check succeeded (e.g. "miura b349882a (+3)").
    pub latest: Option<String>,
    /// True when the remote branch has commits the running binary was not built from.
    pub update_available: bool,
    /// URL of the latest release page, if available (for a "view release" link).
    pub release_url: Option<String>,
    /// True when the check itself failed (network/parse). The badge should stay hidden.
    pub check_failed: bool,
}

/// What an [`UpdateCheck`] says.
pub struct Outcome {
    pub current: Seq<char>,
    pub latest: Option<Seq<char>>,
    pub update_available: bool,
    pub release_url: Option<Seq<char>>,
    pub check_failed: bool,
}

/// What a text that may be missing holds.
pub open spec fn optional(text: Option<String>) -> Option<Seq<char>> {
    match text {
        Some(t) => Some(t@),
        None => None,
    }
}

impl View for UpdateCheck {
    type V = Outcome;

    open spec fn view(&self) -> Outcome {
        Outcome {
            current: self.current@,
            latest: optional(self.latest),
            update_available: self.update_available,
            release_url: optional(self.release_url),
            check_failed: self.check_failed,
        }
    }
}

/// The outcome of a check that failed.
pub open spec fn unknown(current: Seq<char>) -> Outcome {
    Outcome {
        current,
        latest: None,
        update_available: false,
        release_url: None,
        check_failed: true,
    }
}

/// The outcome of a check that found `behind` commits that the binary lacks.
pub open spec fn found(current: Seq<char>, branch: Seq<char>, tip: Seq<char>, behind: u32) -> Outcome {
    Outcome {
        current,
        latest: Some(branch + " "@ + tip + " (+"@ + text::decimal(behind as nat) + ")"@),
        update_available: behind > 0,
        release_url: None,
        check_failed: false,
    }
}

impl Outcome {
    /// The outcome as a JSON object.
    pub open spec fn json(self) -> Seq<char> {
        "{\"current\":"@ + Json::Text(self.current).written() + ",\"latest\":"@ + Json::of(
            self.latest,
        ).written() + ",\"update_available\":"@ + Json::Bool(self.update_available).written()
            + ",\"release_url\":"@ + Json::of(self.release_url).written() + ",\"check_failed\":"@
            + Json::Bool(self.check_failed).written() + "}"@
    }

    /// The members of that object: the five fields, with `null` for a text that is missing.
    pub open spec fn members(self) -> Seq<(Seq<char>, Json)> {
        seq![
            ("current"@, Json::Text(self.current)),
            ("latest"@, Json::of(self.latest)),
            ("update_available"@, Json::Bool(self.update_available)),
            ("release_url"@, Json::of(self.release_url)),
            ("check_failed"@, Json::Bool(self.check_failed)),
        ]
    }
}

/// Append a JSON string, or `null`.
fn push_json_option(out: &mut String, text: &Option<String>)
    ensures
        final(out)@ == old(out)@ + Json::of(optional(*text)).written(),
{
    match text {
        Some(t) => json::push_json_text(out, t.as_str()),
        None => out.append("null"),
    }
}

impl UpdateCheck {
    /// The result of a check that failed.
    fn unknown(current: &str) -> (check: Self)
        ensures
            check@ == unknown(current@),
    {
        UpdateCheck {
            current: String::from_str(current),
            latest: None,
            update_available: false,
            release_url: None,
            check_failed: true,
        }
    }

    /// Render as a JSON object for `GET /api/update/check`.
    pub fn to_json(&self) -> (json: String)
        ensures
            json@ == self@.json(),
    {
        let mut out = String::from_str("{\"current\":");
        json::push_json_text(&mut out, self.current.as_str());
        out.append(",\"latest\":");
        push_json_option(&mut out, &self.latest);
        out.append(",\"update_available\":");
        json::push_json_bool(&mut out, self.update_available);
        out.append(",\"release_url\":");
        push_json_option(&mut out, &self.release_url);
        out.append(",\"check_failed\":");
        json::push_json_bool(&mut out, self.check_failed);
        out.append("}");
        out
    }
}

/// How far a check has come: which command is running, and what the ones before it told.
#[derive(Debug)]
enum Stage {
    Branch,
    Fetch { branch: String },
    Tip { branch: String },
    Binary { branch: String, tip: String },
    Count { branch: String, tip: String },
    Done,
}

/// What a caller of [`PendingCheck`] does next.
#[derive(Debug)]
pub enum Action {
    /// Run git with these arguments in the source tree, and report what it printed.
    Git(Vec<String>),
    /// The check is over.
    Finished(UpdateCheck),
}

/// An update check that is under way.
#[derive(Debug)]
pub struct PendingCheck {
    current: String,
    binary: String,
    stage: Stage,
}

/// How far a check has come.
pub enum StageView {
    Branch,
    Fetch { branch: Seq<char> },
    Tip { branch: Seq<char> },
    Binary { branch: Seq<char>, tip: Seq<char> },
    Count { branch: Seq<char>, tip: Seq<char> },
    Done,
}

/// What a check that is under way knows.
pub struct CheckState {
    pub current: Seq<char>,
    /// The commit that the binary was built from, as far as it is known.
    pub binary: Seq<char>,
    pub stage: StageView,
}

/// What is done next.
pub enum ActionView {
    Git(Seq<Seq<char>>),
    Finished(Outcome),
}

impl View for Stage {
    type V = StageView;

    closed spec fn view(&self) -> StageView {
        match *self {
            Stage::Branch => StageView::Branch,
            Stage::Fetch { branch } => StageView::Fetch { branch: branch@ },
            Stage::Tip { branch } => StageView::Tip { branch: branch@ },
            Stage::Binary { branch, tip } => StageView::Binary { branch: branch@, tip: tip@ },
            Stage::Count { branch, tip } => StageView::Count { branch: branch@, tip: tip@ },
            Stage::Done => StageView::Done,
        }
    }
}

impl View for PendingCheck {
    type V = CheckState;

    closed spec fn view(&self) -> CheckState {
        CheckState { current: self.current@, binary: self.binary@, stage: self.stage@ }
    }
}

impl View for Action {
    type V = ActionView;

    open spec fn view(&self) -> ActionView {
        match *self {
            Action::Git(args) => ActionView::Git(words(args@)),
            Action::Finished(check) => ActionView::Finished(check@),
        }
    }
}

/// What the arguments of a command say.
pub open spec fn words(args: Seq<String>) -> Seq<Seq<char>> {
    Seq::new(args.len(), |i: int| args[i]@)
}

/// The commit that a build was made from, without the mark of a modified source tree.
pub open spec fn built_from(hash: Seq<char>) -> Seq<char> {
    let n = hash.len() - 9;
    if n >= 0 && hash.skip(n) == "-modified"@ {
        hash.take(n)
    } else {
        hash
    }
}

/// The branch that is checked out, by what git printed of it: `main` on a detached HEAD.
pub open spec fn branch_of(printed: Seq<char>) -> Seq<char> {
    let name = text::trimmed(printed);
    if name.len() == 0 || name == "HEAD"@ {
        "main"@
    } else {
        name
    }
}

/// The branch as the remote has it.
pub open spec fn remote_ref(branch: Seq<char>) -> Seq<char> {
    "origin/"@ + branch
}

/// The build names a commit.
pub open spec fn names_a_commit(binary: Seq<char>) -> bool {
    binary.len() > 0 && binary != "unknown"@
}

pub open spec fn branch_args() -> Seq<Seq<char>> {
    seq!["rev-parse"@, "--abbrev-ref"@, "HEAD"@]
}

pub open spec fn fetch_args(branch: Seq<char>) -> Seq<Seq<char>> {
    seq!["fetch"@, "--quiet"@, "origin"@, branch]
}

pub open spec fn tip_args(branch: Seq<char>) -> Seq<Seq<char>> {
    seq!["rev-parse"@, "--short=8"@, remote_ref(branch)]
}

pub open spec fn binary_args(binary: Seq<char>) -> Seq<Seq<char>> {
    seq!["cat-file"@, "-e"@, binary + "^{commit}"@]
}

pub open spec fn count_args(base: Seq<char>, branch: Seq<char>) -> Seq<Seq<char>> {
    seq!["rev-list"@, "--count"@, base + ".."@ + remote_ref(branch)]
}

/// The first step of a check: without a source tree it has failed.
pub open spec fn first_step(current: Seq<char>, hash: Seq<char>, source_tree: bool) -> (
    CheckState,
    ActionView,
) {
    let binary = built_from(hash);
    if source_tree {
        (
            CheckState { current, binary, stage: StageView::Branch },
            ActionView::Git(branch_args()),
        )
    } else {
        (
            CheckState { current, binary, stage: StageView::Done },
            ActionView::Finished(unknown(current)),
        )
    }
}

/// The step that follows a command: `printed` is what it printed, or nothing if it failed.
pub open spec fn next_step(s: CheckState, printed: Option<Seq<char>>) -> (CheckState, ActionView) {
    let failed = (
        CheckState { stage: StageView::Done, ..s },
        ActionView::Finished(unknown(s.current)),
    );
    match s.stage {
        StageView::Branch => match printed {
            None => failed,
            Some(out) => {
                let branch = branch_of(out);
                (
                    CheckState { stage: StageView::Fetch { branch }, ..s },
                    ActionView::Git(fetch_args(branch)),
                )
            },
        },
        StageView::Fetch { branch } => if printed is None {
            failed
        } else {
            (
                CheckState { stage: StageView::Tip { branch }, ..s },
                ActionView::Git(tip_args(branch)),
            )
        },
        StageView::Tip { branch } => match printed {
            None => failed,
            Some(out) => {
                let tip = text::trimmed(out);
                if names_a_commit(s.binary) {
                    (
                        CheckState { stage: StageView::Binary { branch, tip }, ..s },
                        ActionView::Git(binary_args(s.binary)),
                    )
                } else {
                    (
                        CheckState { stage: StageView::Count { branch, tip }, ..s },
                        ActionView::Git(count_args("HEAD"@, branch)),
                    )
                }
            },
        },
        StageView::Binary { branch, tip } => (
            CheckState { stage: StageView::Count { branch, tip }, ..s },
            ActionView::Git(
                count_args(
                    if printed is Some {
                        s.binary
                    } else {
                        "HEAD"@
                    },
                    branch,
                ),
            ),
        ),
        StageView::Count { branch, tip } => match printed {
            None => failed,
            Some(out) => match text::number_of(text::trimmed(out)) {
                None => failed,
                Some(behind) => (
                    CheckState { stage: StageView::Done, ..s },
                    ActionView::Finished(found(s.current, branch, tip, behind)),
                ),
            },
        },
        StageView::Done => failed,
    }
}

/// Append one more argument.
fn push_arg(args: &mut Vec<String>, arg: &str)
    ensures
        words(final(args)@) == words(old(args)@).push(arg@),
{
    args.push(String::from_str(arg));
    assert(words(args@) =~= words(old(args)@).push(arg@));
}

/// Two texts in a row.
fn joined(a: &str, b: &str) -> (text: String)
    ensures
        text@ == a@ + b@,
{
    let mut text = String::from_str(a);
    text.append(b);
    text
}

/// A text without the white space around it.
fn trimmed_text(s: &str) -> (text: String)
    ensures
        text@ == text::trimmed(s@),
{
    let chars: Vec<char> = text::trim(s);
    let n: usize = chars.len();
    assert(chars@.subrange(0, n as int) =~= chars@);
    text::text_of(&chars, 0, n)
}

/// A build's commit hash without the mark of a modified source tree.
fn strip_modified(hash: &str) -> (binary: String)
    ensures
        binary@ == built_from(hash@),
{
    let chars: Vec<char> = text::chars_of(hash);
    let n: usize = chars.len();
    if n >= 9 {
        let mark: String = text::text_of(&chars, n - 9, n);
        assert(mark@ =~= hash@.skip(n - 9));
        if text::same(mark.as_str(), "-modified") {
            let binary: String = text::text_of(&chars, 0, n - 9);
            assert(binary@ =~= hash@.take(n - 9));
            return binary;
        }
    }
    String::from_str(hash)
}

/// The command that counts the commits since `base`.
fn count_command(base: &str, branch: &str) -> (action: Action)
    ensures
        action@ == ActionView::Git(count_args(base@, branch@)),
{
    let mut range: String = joined(base, "..");
    range.append("origin/");
    range.append(branch);
    let mut args: Vec<String> = Vec::new();
    push_arg(&mut args, "rev-list");
    push_arg(&mut args, "--count");
    push_arg(&mut args, range.as_str());
    proof {
        assert(range@ =~= base@ + ".."@ + remote_ref(branch@));
        assert(words(args@) =~= count_args(base@, branch@));
    }
    Action::Git(args)
}

impl PendingCheck {
    /// Start a check: fetch the remote branch that the source tree is checked out on, and count
    /// the commits on it that the running binary was not built from. `source_tree` is false when
    /// no trusted source tree was found.
    pub fn begin(current_version: &str, binary_git_hash: &str, source_tree: bool) -> (first: (
        PendingCheck,
        Action,
    ))
        ensures
            (first.0@, first.1@) == first_step(current_version@, binary_git_hash@, source_tree),
    {
        let current = String::from_str(current_version);
        let binary: String = strip_modified(binary_git_hash);
        if !source_tree {
            let action = Action::Finished(UpdateCheck::unknown(current_version));
            return (PendingCheck { current, binary, stage: Stage::Done }, action);
        }
        let mut args: Vec<String> = Vec::new();
        push_arg(&mut args, "rev-parse");
        push_arg(&mut args, "--abbrev-ref");
        push_arg(&mut args, "HEAD");
        assert(words(args@) =~= branch_args());
        (PendingCheck { current, binary, stage: Stage::Branch }, Action::Git(args))
    }

    /// Go on after a command. `printed` is what it wrote to its standard output, or `None` if it
    /// failed.
    pub fn on_output(&mut self, printed: Option<String>) -> (action: Action)
        ensures
            (final(self)@, action@) == next_step(old(self)@, optional(printed)),
    {
        let mut stage = Stage::Done;
        std::mem::swap(&mut stage, &mut self.stage);
        match stage {
            Stage::Branch => {
                // The checked-out branch, `main` on a detached HEAD.
                let branch: String = match printed {
                    Some(out) => {
                        let name: String = trimmed_text(out.as_str());
                        if text::chars_of(name.as_str()).len() == 0 || text::same(
                            name.as_str(),
                            "HEAD",
                        ) {
                            String::from_str("main")
                        } else {
                            name
                        }
                    },
                    None => {
                        return Action::Finished(UpdateCheck::unknown(self.current.as_str()));
                    },
                };
                let mut args: Vec<String> = Vec::new();
                push_arg(&mut args, "fetch");
                push_arg(&mut args, "--quiet");
                push_arg(&mut args, "origin");
                push_arg(&mut args, branch.as_str());
                assert(words(args@) =~= fetch_args(branch@));
                self.stage = Stage::Fetch { branch };
                Action::Git(args)
            },
            Stage::Fetch { branch } => {
                if printed.is_none() {
                    return Action::Finished(UpdateCheck::unknown(self.current.as_str()));
                }
                let remote: String = joined("origin/", branch.as_str());
                let mut args: Vec<String> = Vec::new();
                push_arg(&mut args, "rev-parse");
                push_arg(&mut args, "--short=8");
                push_arg(&mut args, remote.as_str());
                assert(words(args@) =~= tip_args(branch@));
                self.stage = Stage::Tip { branch };
                Action::Git(args)
            },
            Stage::Tip { branch } => {
                let tip: String = match printed {
                    Some(out) => trimmed_text(out.as_str()),
                    None => {
                        return Action::Finished(UpdateCheck::unknown(self.current.as_str()));
                    },
                };
                // Count from the commit the binary was built from; fall back to the tree's HEAD
                // when the build embedded no hash or that commit is not in this clone.
                if text::chars_of(self.binary.as_str()).len() == 0 || text::same(
                    self.binary.as_str(),
                    "unknown",
                ) {
                    let action = count_command("HEAD", branch.as_str());
                    self.stage = Stage::Count { branch, tip };
                    return action;
                }
                let commit: String = joined(self.binary.as_str(), "^{commit}");
                let mut args: Vec<String> = Vec::new();
                push_arg(&mut args, "cat-file");
                push_arg(&mut args, "-e");
                push_arg(&mut args, commit.as_str());
                assert(words(args@) =~= binary_args(self.binary@));
                self.stage = Stage::Binary { branch, tip };
                Action::Git(args)
            },
            Stage::Binary { branch, tip } => {
                let action = if printed.is_some() {
                    count_command(self.binary.as_str(), branch.as_str())
                } else {
                    count_command("HEAD", branch.as_str())
                };
                self.stage = Stage::Count { branch, tip };
                action
            },
            Stage::Count { branch, tip } => {
                let behind: u32 = match printed {
                    Some(out) => match text::parse_u32(&text::trim(out.as_str())) {
                        Some(n) => n,
                        None => {
                            return Action::Finished(UpdateCheck::unknown(self.current.as_str()));
                        },
                    },
                    None => {
                        return Action::Finished(UpdateCheck::unknown(self.current.as_str()));
                    },
                };
                let mut latest: String = joined(branch.as_str(), " ");
                latest.append(tip.as_str());
                latest.append(" (+");
                text::push_decimal(&mut latest, behind as u128);
                latest.append(")");
                Action::Finished(
                    UpdateCheck {
                        current: self.current.clone(),
                        latest: Some(latest),
                        update_available: behind > 0,
                        release_url: None,
                        check_failed: false,
                    },
                )
            },
            Stage::Done => Action::Finished(UpdateCheck::unknown(self.current.as_str())),
        }
    }
}

/// What the commits are counted from: the commit that the binary was built from, or the tree's
/// HEAD where the build names none or the clone does not have it.
pub open spec fn base_of(
    hash: Seq<char>,
    git: spec_fn(Seq<Seq<char>>) -> Option<Seq<char>>,
) -> Seq<char> {
    let binary = built_from(hash);
    if names_a_commit(binary) && git(binary_args(binary)) is Some {
        binary
    } else {
        "HEAD"@
    }
}

/// The outcome of a whole check, where `git` tells what each command prints, or that it fails.
pub open spec fn outcome(
    current: Seq<char>,
    hash: Seq<char>,
    git: spec_fn(Seq<Seq<char>>) -> Option<Seq<char>>,
) -> Outcome {
    match git(branch_args()) {
        None => unknown(current),
        Some(name) => {
            let branch = branch_of(name);
            let base = base_of(hash, git);
            match (git(fetch_args(branch)), git(tip_args(branch)), git(count_args(base, branch))) {
                (Some(_), Some(tip), Some(count)) => match text::number_of(text::trimmed(count)) {
                    Some(behind) => found(current, branch, text::trimmed(tip), behind),
                    None => unknown(current),
                },
                _ => unknown(current),
            }
        },
    }
}

/// What is to be done after up to `n` more commands.
pub open spec fn settled(
    s: CheckState,
    action: ActionView,
    git: spec_fn(Seq<Seq<char>>) -> Option<Seq<char>>,
    n: nat,
) -> ActionView
    decreases n,
{
    match action {
        ActionView::Git(args) => if n == 0 {
            action
        } else {
            let (t, next) = next_step(s, git(args));
            settled(t, next, git, (n - 1) as nat)
        },
        ActionView::Finished(_) => action,
    }
}

/// A check is over after five commands at the latest, with the outcome that what they print
/// gives it; without a source tree it is over at once.
pub proof fn law_check_reaches_its_outcome(
    current: Seq<char>,
    hash: Seq<char>,
    git: spec_fn(Seq<Seq<char>>) -> Option<Seq<char>>,
)
    ensures
        ({
            let (s, action) = first_step(current, hash, true);
            settled(s, action, git, 5) == ActionView::Finished(outcome(current, hash, git))
        }),
        first_step(current, hash, false).1 == ActionView::Finished(unknown(current)),
{
    reveal_with_fuel(settled, 6);
}

/// A failure offers no update: where reading the branch, fetching it, asking for its tip or
/// counting fails, or the count is no number, the outcome is that nothing is known. An update is
/// offered exactly where none of that happens and the count is above zero. The running version is
/// reported as it is in every case.
pub proof fn law_failures_offer_no_update(
    current: Seq<char>,
    hash: Seq<char>,
    git: spec_fn(Seq<Seq<char>>) -> Option<Seq<char>>,
)
    ensures
        ({
            let result = outcome(current, hash, git);
            &&& git(branch_args()) is None ==> result == unknown(current)
            &&& git(branch_args()) matches Some(name) ==> {
                let branch = branch_of(name);
                let counted = git(count_args(base_of(hash, git), branch));
                &&& git(fetch_args(branch)) is None ==> result == unknown(current)
                &&& git(tip_args(branch)) is None ==> result == unknown(current)
                &&& counted is None ==> result == unknown(current)
                &&& counted matches Some(count) ==> text::number_of(text::trimmed(count)) is None
                    ==> result == unknown(current)
                &&& result.update_available <==> {
                    &&& git(fetch_args(branch)) is Some
                    &&& git(tip_args(branch)) is Some
                    &&& counted matches Some(count)
                    &&& text::number_of(text::trimmed(count)) matches Some(behind)
                    &&& behind > 0
                }
            }
            &&& result.check_failed ==> result == unknown(current)
            &&& !result.check_failed ==> result.latest is Some
            &&& result.update_available ==> !result.check_failed
            &&& result.current == current
            &&& result.release_url is None
        }),
{
}

/// Whatever the texts hold, the JSON object is one, and reads back to the five fields.
pub proof fn law_json_reads_back(result: Outcome)
    ensures
        json::read_object(result.json()) == Some(result.members()),
{
    lemma_json_members(result);
    json::law_object_reads_back(result.members());
}

/// The JSON object is made of the five members.
proof fn lemma_json_members(result: Outcome)
    ensures
        result.json() == "{"@ + json::members(result.members()) + "}"@,
{
    lemma_keys();
    let current = Json::Text(result.current);
    let latest = Json::of(result.latest);
    let available = Json::Bool(result.update_available);
    let url = Json::of(result.release_url);
    let failed = Json::Bool(result.check_failed);
    let one = seq![("current"@, current)];
    let two = one.push(("latest"@, latest));
    let three = two.push(("update_available"@, available));
    let four = three.push(("release_url"@, url));
    let five = four.push(("check_failed"@, failed));
    json::lemma_first_member("current"@, current, "{\"current\":"@);
    json::lemma_next_member(one, "latest"@, latest, ",\"latest\":"@);
    json::lemma_next_member(two, "update_available"@, available, ",\"update_available\":"@);
    json::lemma_next_member(three, "release_url"@, url, ",\"release_url\":"@);
    json::lemma_next_member(four, "check_failed"@, failed, ",\"check_failed\":"@);
    assert(result.members() == five);
}

/// The keys of the object need no escaping.
proof fn lemma_keys()
    ensures
        "{\"current\":"@ == "{"@ + Json::Text("current"@).written() + ":"@,
        ",\"latest\":"@ == ","@ + Json::Text("latest"@).written() + ":"@,
        ",\"update_available\":"@ == ","@ + Json::Text("update_available"@).written() + ":"@,
        ",\"release_url\":"@ == ","@ + Json::Text("release_url"@).written() + ":"@,
        ",\"check_failed\":"@ == ","@ + Json::Text("check_failed"@).written() + ":"@,
{
    reveal_strlit("\"");
    reveal_strlit(":");
    reveal_strlit(",");
    reveal_strlit("{");
    reveal_strlit("current");
    reveal_strlit("latest");
    reveal_strlit("update_available");
    reveal_strlit("release_url");
    reveal_strlit("check_failed");
    reveal_strlit("{\"current\":");
    reveal_strlit(",\"latest\":");
    reveal_strlit(",\"update_available\":");
    reveal_strlit(",\"release_url\":");
    reveal_strlit(",\"check_failed\":");
    json::lemma_plain_text("current"@);
    json::lemma_plain_text("latest"@);
    json::lemma_plain_text("update_available"@);
    json::lemma_plain_text("release_url"@);
    json::lemma_plain_text("check_failed"@);
    assert("{\"current\":"@ =~= "{"@ + Json::Text("current"@).written() + ":"@);
    assert(",\"latest\":"@ =~= ","@ + Json::Text("latest"@).written() + ":"@);
    assert(",\"update_available\":"@ =~= ","@ + Json::Text("update_available"@).written() + ":"@);
    assert(",\"release_url\":"@ =~= ","@ + Json::Text("release_url"@).written() + ":"@);
    assert(",\"check_failed\":"@ =~= ","@ + Json::Text("check_failed"@).written() + ":"@);
}

/// A check starts by asking which branch is checked out, for the commit that the build was made from
/// without the mark of a modified source tree; without a source tree it has failed at once.
pub proof fn law_a_check_starts_with_the_branch(
    current: &str,
    hash: &str,
    source_tree: bool,
    c: PendingCheck,
    action: Action,
)
    requires
        call_ensures(PendingCheck::begin, (current, hash, source_tree), (c, action)),
    ensures
        c@.current == current@,
        forall|commit: Seq<char>|
            (#[trigger] (commit + "-modified"@)) == hash@ ==> c@.binary == commit,
        (forall|commit: Seq<char>| (#[trigger] (commit + "-modified"@)) != hash@) ==> c@.binary
            == hash@,
        source_tree ==> {
            &&& c@.stage is Branch
            &&& action matches Action::Git(args)
            &&& args@.len() == 3
            &&& args@[0]@ == "rev-parse"@ && args@[1]@ == "--abbrev-ref"@ && args@[2]@ == "HEAD"@
        },
        !source_tree ==> {
            &&& c@.stage is Done
            &&& action matches Action::Finished(check)
            &&& check.check_failed && !check.update_available && check.latest is None
                && check.release_url is None && check.current@ == current@
        },
{
    reveal_strlit("-modified");
    let n = hash@.len() - 9;
    assert((c@, action@) == first_step(current@, hash@, source_tree));
    assert forall|commit: Seq<char>|
        (#[trigger] (commit + "-modified"@)) == hash@ implies c@.binary == commit by {
        assert(commit.len() == n);
        assert(hash@.skip(n) =~= "-modified"@);
        assert(hash@.take(n) =~= commit);
    }
    if n >= 0 && hash@.skip(n) == "-modified"@ {
        assert(hash@.take(n) + "-modified"@ =~= hash@);
    }
    lemma_git_words(action);
}

/// The words of a command are those of its arguments.
proof fn lemma_git_words(action: Action)
    ensures
        action@ matches ActionView::Git(all) ==> {
            &&& action matches Action::Git(args)
            &&& all.len() == args@.len()
            &&& forall|i: int| 0 <= i < args@.len() ==> #[trigger] args@[i]@ == all[i]
        },
{
}

/// What follows each command. The branch that is printed is fetched from `origin`, `main` where the
/// HEAD is detached or nothing is printed; then the tip of that branch is asked for, then whether
/// the clone has the commit of the build, where the build names one, and then how many commits the
/// branch has that the commit has not, or that the HEAD has not. What is counted is what is found.
/// Any other failure than that of the question about the commit ends the check.
pub proof fn law_each_command_follows_from_the_last(printed: Option<String>)
    ensures
        forall|c: &mut PendingCheck, action: Action|
            #[trigger] call_ensures(PendingCheck::on_output, (c, printed), action) && c@.stage is Branch
                ==> {
                &&& final(c)@.current == c@.current && final(c)@.binary == c@.binary
                &&& printed is None ==> {
                    &&& action matches Action::Finished(check)
                    &&& check.check_failed && !check.update_available && check.latest is None
                        && check.release_url is None && check.current@ == c@.current
                    &&& final(c)@.stage is Done
                }
                &&& printed matches Some(out) ==> {
                    let name = text::trimmed(out@);
                    &&& final(c)@.stage matches StageView::Fetch { branch }
                    &&& name.len() == 0 || name == "HEAD"@ ==> branch == "main"@
                    &&& name.len() > 0 && name != "HEAD"@ ==> branch == name
                    &&& action matches Action::Git(args)
                    &&& args@.len() == 4
                    &&& args@[0]@ == "fetch"@ && args@[1]@ == "--quiet"@ && args@[2]@ == "origin"@
                        && args@[3]@ == branch
                }
            },
        forall|c: &mut PendingCheck, action: Action|
            #[trigger] call_ensures(PendingCheck::on_output, (c, printed), action) ==> (
            c@.stage matches StageView::Fetch { branch } ==> {
                &&& final(c)@.current == c@.current && final(c)@.binary == c@.binary
                &&& printed is None ==> {
                    &&& action matches Action::Finished(check)
                    &&& check.check_failed && !check.update_available && check.latest is None
                        && check.release_url is None && check.current@ == c@.current
                    &&& final(c)@.stage is Done
                }
                &&& printed is Some ==> {
                    &&& final(c)@.stage == (StageView::Tip { branch })
                    &&& action matches Action::Git(args)
                    &&& args@.len() == 3
                    &&& args@[0]@ == "rev-parse"@ && args@[1]@ == "--short=8"@ && args@[2]@
                        == "origin/"@ + branch
                }
            }),
        forall|c: &mut PendingCheck, action: Action|
            #[trigger] call_ensures(PendingCheck::on_output, (c, printed), action) ==> (
            c@.stage matches StageView::Tip { branch } ==> {
                let named = c@.binary.len() > 0 && c@.binary != "unknown"@;
                &&& final(c)@.current == c@.current && final(c)@.binary == c@.binary
                &&& printed is None ==> {
                    &&& action matches Action::Finished(check)
                    &&& check.check_failed && !check.update_available && check.latest is None
                        && check.release_url is None && check.current@ == c@.current
                    &&& final(c)@.stage is Done
                }
                &&& printed matches Some(out) ==> {
                    &&& named ==> {
                        &&& final(c)@.stage == (StageView::Binary {
                            branch,
                            tip: text::trimmed(out@),
                        })
                        &&& action matches Action::Git(args)
                        &&& args@.len() == 3
                        &&& args@[0]@ == "cat-file"@ && args@[1]@ == "-e"@ && args@[2]@ == c@.binary
                            + "^{commit}"@
                    }
                    &&& !named ==> {
                        &&& final(c)@.stage == (StageView::Count {
                            branch,
                            tip: text::trimmed(out@),
                        })
                        &&& action matches Action::Git(args)
                        &&& args@.len() == 3
                        &&& args@[0]@ == "rev-list"@ && args@[1]@ == "--count"@ && args@[2]@
                            == "HEAD"@ + ".."@ + ("origin/"@ + branch)
                    }
                }
            }),
        forall|c: &mut PendingCheck, action: Action|
            #[trigger] call_ensures(PendingCheck::on_output, (c, printed), action) ==> (
            c@.stage matches StageView::Binary { branch, tip } ==> {
                &&& final(c)@.current == c@.current && final(c)@.binary == c@.binary
                &&& final(c)@.stage == (StageView::Count { branch, tip })
                &&& action matches Action::Git(args)
                &&& args@.len() == 3
                &&& args@[0]@ == "rev-list"@ && args@[1]@ == "--count"@
                &&& printed is Some ==> args@[2]@ == c@.binary + ".."@ + ("origin/"@ + branch)
                &&& printed is None ==> args@[2]@ == "HEAD"@ + ".."@ + ("origin/"@ + branch)
            }),
        forall|c: &mut PendingCheck, action: Action|
            #[trigger] call_ensures(PendingCheck::on_output, (c, printed), action) ==> (
            c@.stage matches StageView::Count { branch, tip } ==> {
                let behind = match printed {
                    Some(out) => text::number_of(text::trimmed(out@)),
                    None => None,
                };
                &&& final(c)@.current == c@.current && final(c)@.binary == c@.binary
                &&& behind is None ==> {
                    &&& action matches Action::Finished(check)
                    &&& check.check_failed && !check.update_available && check.latest is None
                        && check.release_url is None && check.current@ == c@.current
                    &&& final(c)@.stage is Done
                }
                &&& behind matches Some(n) ==> {
                    &&& final(c)@.stage is Done
                    &&& action matches Action::Finished(check)
                    &&& check.current@ == c@.current
                    &&& !check.check_failed
                    &&& check.update_available <==> n > 0
                    &&& check.release_url is None
                    &&& check.latest matches Some(latest)
                    &&& latest@ == branch + " "@ + tip + " (+"@ + text::decimal(n as nat) + ")"@
                }
            }),
        forall|c: &mut PendingCheck, action: Action|
            #[trigger] call_ensures(PendingCheck::on_output, (c, printed), action) && c@.stage is Done
                ==> {
                    &&& action matches Action::Finished(check)
                    &&& check.check_failed && !check.update_available && check.latest is None
                        && check.release_url is None && check.current@ == c@.current
                    &&& final(c)@.stage is Done
                },
{
    lemma_all_git_words();
}

/// The words of any command are those of its arguments.
proof fn lemma_all_git_words()
    ensures
        forall|action: Action|
            #![trigger action@]
            action@ matches ActionView::Git(all) ==> {
                &&& action matches Action::Git(args)
                &&& all.len() == args@.len()
                &&& forall|i: int| 0 <= i < args@.len() ==> #[trigger] args@[i]@ == all[i]
            },
{
    assert forall|action: Action|
        #![trigger action@]
        action@ is Git implies (action@ matches ActionView::Git(all) && {
        &&& action matches Action::Git(args)
        &&& all.len() == args@.len()
        &&& forall|i: int| 0 <= i < args@.len() ==> #[trigger] args@[i]@ == all[i]
    }) by {
        lemma_git_words(action);
    }
}

/// A result is rendered as a JSON object of the five fields, in this order.
pub proof fn law_a_result_is_rendered_as_an_object(check: UpdateCheck, j: String)
    requires
        call_ensures(UpdateCheck::to_json, (&check,), j),
    ensures
        j@ == "{\"current\":"@ + Json::Text(check.current@).written() + ",\"latest\":"@ + (
        match check.latest {
            Some(t) => Json::Text(t@),
            None => Json::Null,
        }).written() + ",\"update_available\":"@ + Json::Bool(check.update_available).written()
            + ",\"release_url\":"@ + (match check.release_url {
            Some(t) => Json::Text(t@),
            None => Json::Null,
        }).written() + ",\"check_failed\":"@ + Json::Bool(check.check_failed).written() + "}"@,
{
}

} // verus!
