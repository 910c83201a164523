use vstd::prelude::*;
use crate::hub::{
    BuildResult, BuildStatus, BuildTarget, HubLogItem, HubMsg, HubMsgTo, HubMsgView, LocMessage,
    Outbox, ToHubMsg, ToHubMsgView, sent_view,
};
use crate::textbuffer::{
    MAX_BUFFER_MESSAGES, TextBufferMessage, TextBufferMessageLevel, TextBufferView, TextBuffers,
    cleared, insert_pos, path_index, with_buffer,
};
use crate::uid::{HubUid, UidAlloc};

verus! {

/// The most log items kept before the log is cut back or stops growing.
pub const MAX_LOG_ITEMS: usize = 700000;

/// How many of the oldest log items survive a cut in tail mode.
pub const RETAINED_LOG_ITEMS: usize = 500000;

pub open spec fn truncated_text() -> Seq<char> {
    "------------ Log truncated here -----------"@
}

pub open spec fn skipping_text() -> Seq<char> {
    "------------ Log skipping, press tail to resume -----------"@
}

/// `item` is a plain message reading `text`.
pub open spec fn is_message_with(item: HubLogItem, text: Seq<char>) -> bool {
    match item {
        HubLogItem::Message(s) => s@ == text,
        _ => false,
    }
}

/// One configured target and the requests outstanding for it.
pub struct ActiveBuild {
    pub build_target: BuildTarget,
    pub build_result: Option<BuildResult>,
    /// Set exactly while a build of this target is outstanding.
    pub build_uid: Option<HubUid>,
    /// Set exactly while a started executable of this target is outstanding.
    pub run_uid: Option<HubUid>,
}

/// The configuration the build manager reads on a restart.
pub struct BuildSettings {
    pub builds: Vec<BuildTarget>,
    pub exec_when_done: bool,
}

/// Drives builds and runs on remote builders and keeps the build console.
pub struct BuildManager {
    pub active_builds: Vec<ActiveBuild>,
    /// Run all executables once the last outstanding build has ended.
    pub exec_when_done: bool,
    pub log_items: Vec<HubLogItem>,
    /// When the log is full, keep showing the newest output.
    pub tail_log_items: bool,
    pub artifacts: Vec<String>,
    pub uids: UidAlloc,
}

/// `uid` is the outstanding build or run of some entry.
pub open spec fn tracks(abs: Seq<ActiveBuild>, uid: HubUid) -> bool {
    exists|i: int| 0 <= i < abs.len() && (abs[i].build_uid == Some(uid) || abs[i].run_uid == Some(uid))
}

pub open spec fn any_building(abs: Seq<ActiveBuild>) -> bool {
    exists|i: int| 0 <= i < abs.len() && abs[i].build_uid.is_some()
}

pub open spec fn any_running(abs: Seq<ActiveBuild>) -> bool {
    exists|i: int| 0 <= i < abs.len() && abs[i].run_uid.is_some()
}

pub open spec fn uid_below(u: Option<HubUid>, next: u64) -> bool {
    match u {
        Some(x) => x.id < next,
        None => true,
    }
}

/// Every outstanding identifier was allocated before `next`, and no
/// identifier is outstanding twice: not for two builds, not for two runs,
/// and not for a build and a run.
pub open spec fn builds_wf(abs: Seq<ActiveBuild>, next: u64) -> bool {
    &&& forall|i: int| 0 <= i < abs.len() ==> uid_below(#[trigger] abs[i].build_uid, next) && uid_below(abs[i].run_uid, next)
    &&& forall|i: int, j: int|
        0 <= i < abs.len() && 0 <= j < abs.len() && i != j && (#[trigger] abs[i].build_uid).is_some()
            ==> abs[i].build_uid != (#[trigger] abs[j].build_uid)
    &&& forall|i: int, j: int|
        0 <= i < abs.len() && 0 <= j < abs.len() && i != j && (#[trigger] abs[i].run_uid).is_some()
            ==> abs[i].run_uid != (#[trigger] abs[j].run_uid)
    &&& forall|i: int, j: int|
        0 <= i < abs.len() && 0 <= j < abs.len() && (#[trigger] abs[i].build_uid).is_some()
            ==> abs[i].build_uid != (#[trigger] abs[j].run_uid)
}

/// The log after one item is offered to it.
pub open spec fn log_appended(pre: Seq<HubLogItem>, tail: bool, item: HubLogItem, post: Seq<HubLogItem>) -> bool {
    if pre.len() < MAX_LOG_ITEMS {
        post == pre.push(item)
    } else {
        log_limited(pre, tail, post)
    }
}

/// What becomes of a full log (`pre.len() >= MAX_LOG_ITEMS`) when an item
/// is offered: the item is dropped, and the log is cut back with a notice in
/// tail mode; otherwise a log that just reached its cap gets the one
/// skipping notice, and a longer one stays as it is.
pub open spec fn log_limited(pre: Seq<HubLogItem>, tail: bool, post: Seq<HubLogItem>) -> bool {
    if tail {
        &&& post.len() == RETAINED_LOG_ITEMS + 1
        &&& post.subrange(0, RETAINED_LOG_ITEMS as int) == pre.subrange(0, RETAINED_LOG_ITEMS as int)
        &&& is_message_with(post.last(), truncated_text())
    } else if pre.len() == MAX_LOG_ITEMS {
        &&& post.len() == pre.len() + 1
        &&& post.subrange(0, pre.len() as int) == pre
        &&& is_message_with(post.last(), skipping_text())
    } else {
        post == pre
    }
}

/// The notification raised when the log starts skipping.
pub open spec fn limit_signals(pre_len: nat, tail: bool) -> Seq<BuildStatus> {
    if pre_len == MAX_LOG_ITEMS && !tail {
        seq![BuildStatus::NewLogItem]
    } else {
        Seq::empty()
    }
}

/// The marker level for a log item.
pub open spec fn level_of(item: HubLogItem) -> TextBufferMessageLevel {
    match item {
        HubLogItem::LocError(_) => TextBufferMessageLevel::Error,
        HubLogItem::LocWarning(_) => TextBufferMessageLevel::Warning,
        HubLogItem::Error(_) => TextBufferMessageLevel::Error,
        HubLogItem::Warning(_) => TextBufferMessageLevel::Warning,
        _ => TextBufferMessageLevel::Log,
    }
}

/// The text buffers after the diagnostic `m` is attached to the buffer of
/// its path: the buffer is created if missing; a marker is added where the
/// diagnostic has a byte range and the buffer is below its cap.
pub open spec fn with_loc_message(bs: Seq<TextBufferView>, m: LocMessage, level: TextBufferMessageLevel) -> Seq<TextBufferView> {
    let bs1 = with_buffer(bs, m.path@);
    let i = path_index(bs1, m.path@);
    match m.range {
        Some(r) => if bs1[i].messages.len() >= MAX_BUFFER_MESSAGES {
            bs1
        } else {
            let mk = TextBufferMessage { head: r.0, tail: r.1, level, body: m.body };
            bs1.update(i, TextBufferView { path: bs1[i].path, messages: bs1[i].messages.insert(insert_pos(bs1[i].messages, r.0), mk) })
        },
        None => bs1,
    }
}

/// Where requests about a target go.
pub open spec fn to_builder(t: BuildTarget) -> HubMsgTo {
    HubMsgTo::Builder(t.builder)
}

/// The kill requests for whatever `ab` is waiting on: its build, then its run.
pub open spec fn kills_of(ab: ActiveBuild) -> Seq<ToHubMsgView> {
    let to = to_builder(ab.build_target);
    let b = match ab.build_uid {
        Some(u) => seq![ToHubMsgView { to, msg: HubMsgView::BuildKill { uid: u } }],
        None => Seq::empty(),
    };
    let r = match ab.run_uid {
        Some(u) => seq![ToHubMsgView { to, msg: HubMsgView::ProgramKill { uid: u } }],
        None => Seq::empty(),
    };
    b + r
}

/// The kill requests for every entry, in order.
pub open spec fn kill_msgs(abs: Seq<ActiveBuild>) -> Seq<ToHubMsgView>
    decreases abs.len(),
{
    if abs.len() == 0 {
        Seq::empty()
    } else {
        kill_msgs(abs.drop_last()) + kills_of(abs.last())
    }
}

pub open spec fn build_msg(t: BuildTarget, id: int) -> ToHubMsgView {
    ToHubMsgView {
        to: to_builder(t),
        msg: HubMsgView::Build { uid: HubUid { id: id as u64 }, workspace: t.workspace, package: t.package, config: t.config },
    }
}

/// One build request per target, the k-th under identifier `next + k`.
pub open spec fn build_msgs(ts: Seq<BuildTarget>, next: int) -> Seq<ToHubMsgView> {
    Seq::new(ts.len(), |k: int| build_msg(ts[k], next + k))
}

/// One entry per target, each waiting on its build request.
pub open spec fn fresh_builds(ts: Seq<BuildTarget>, next: int) -> Seq<ActiveBuild> {
    Seq::new(
        ts.len(),
        |k: int| ActiveBuild { build_target: ts[k], build_result: None, build_uid: Some(HubUid { id: (next + k) as u64 }), run_uid: None },
    )
}

pub open spec fn is_executable(ab: ActiveBuild) -> bool {
    match ab.build_result {
        Some(BuildResult::Executable { .. }) => true,
        _ => false,
    }
}

/// How many entries have an executable.
pub open spec fn n_exec(abs: Seq<ActiveBuild>) -> nat
    decreases abs.len(),
{
    if abs.len() == 0 {
        0
    } else {
        n_exec(abs.drop_last()) + if is_executable(abs.last()) { 1nat } else { 0nat }
    }
}

/// The requests that start the executable of `ab` under identifier `id`:
/// a kill of the run it supersedes, if any, then the run.
pub open spec fn runs_of(ab: ActiveBuild, id: int) -> Seq<ToHubMsgView> {
    let to = to_builder(ab.build_target);
    match ab.build_result {
        Some(BuildResult::Executable { path }) => {
            let kill = match ab.run_uid {
                Some(u) => seq![ToHubMsgView { to, msg: HubMsgView::ProgramKill { uid: u } }],
                None => Seq::empty(),
            };
            kill.push(ToHubMsgView { to, msg: HubMsgView::ProgramRun { uid: HubUid { id: id as u64 }, path, args: Seq::empty() } })
        },
        _ => Seq::empty(),
    }
}

/// The requests of running every executable, identifiers taken from `next` on.
pub open spec fn run_msgs(abs: Seq<ActiveBuild>, next: int) -> Seq<ToHubMsgView>
    decreases abs.len(),
{
    if abs.len() == 0 {
        Seq::empty()
    } else {
        run_msgs(abs.drop_last(), next) + runs_of(abs.last(), next + n_exec(abs.drop_last()))
    }
}

/// The entries once every executable runs under a fresh identifier.
pub open spec fn after_run(abs: Seq<ActiveBuild>, next: int) -> Seq<ActiveBuild> {
    Seq::new(
        abs.len(),
        |k: int| if is_executable(abs[k]) {
            ActiveBuild { run_uid: Some(HubUid { id: (next + n_exec(abs.subrange(0, k))) as u64 }), ..abs[k] }
        } else {
            abs[k]
        },
    )
}

proof fn lemma_prefix_step(abs: Seq<ActiveBuild>, i: int)
    requires
        0 <= i < abs.len(),
    ensures
        n_exec(abs.subrange(0, i + 1)) == n_exec(abs.subrange(0, i)) + if is_executable(abs[i]) { 1nat } else { 0nat },
        kill_msgs(abs.subrange(0, i + 1)) == kill_msgs(abs.subrange(0, i)) + kills_of(abs[i]),
{
    assert(abs.subrange(0, i + 1).drop_last() =~= abs.subrange(0, i));
}

proof fn lemma_run_msgs_shift(abs: Seq<ActiveBuild>, i: int, next: int)
    requires
        0 <= i < abs.len(),
    ensures
        run_msgs(abs.subrange(0, i + 1), next) == run_msgs(abs.subrange(0, i), next) + runs_of(abs[i], next + n_exec(abs.subrange(0, i))),
{
    assert(abs.subrange(0, i + 1).drop_last() =~= abs.subrange(0, i));
}

proof fn lemma_n_exec_mono(abs: Seq<ActiveBuild>, i: int, j: int)
    requires
        0 <= i < j <= abs.len(),
    ensures
        n_exec(abs.subrange(0, i)) + (if is_executable(abs[i]) { 1nat } else { 0nat }) <= n_exec(abs.subrange(0, j)),
    decreases j - i,
{
    if j == i + 1 {
        lemma_prefix_step(abs, i);
    } else {
        lemma_n_exec_mono(abs, i, j - 1);
        lemma_prefix_step(abs, j - 1);
    }
}

proof fn lemma_n_exec_bound(abs: Seq<ActiveBuild>, i: int)
    requires
        0 <= i <= abs.len(),
    ensures
        n_exec(abs.subrange(0, i)) <= n_exec(abs),
        n_exec(abs) <= abs.len(),
    decreases abs.len() - i,
{
    if i < abs.len() {
        lemma_prefix_step(abs, i);
        lemma_n_exec_bound(abs, i + 1);
    } else {
        assert(abs.subrange(0, i) =~= abs);
        lemma_n_exec_len(abs);
    }
}

proof fn lemma_n_exec_len(abs: Seq<ActiveBuild>)
    ensures
        n_exec(abs) <= abs.len(),
    decreases abs.len(),
{
    if abs.len() > 0 {
        lemma_n_exec_len(abs.drop_last());
    }
}

proof fn lemma_sent_push(s: Seq<ToHubMsg>, m: ToHubMsg)
    ensures
        sent_view(s.push(m)) == sent_view(s).push(m@),
{
    assert(sent_view(s.push(m)) =~= sent_view(s).push(m@));
}


/// The entries after the build `uid` ended with `result`.
pub open spec fn cargo_end_builds(abs: Seq<ActiveBuild>, uid: HubUid, result: BuildResult) -> Seq<ActiveBuild> {
    Seq::new(
        abs.len(),
        |k: int| if abs[k].build_uid == Some(uid) {
            ActiveBuild { build_uid: None, build_result: Some(result), ..abs[k] }
        } else {
            abs[k]
        },
    )
}

/// The entries after the build `uid` failed.
pub open spec fn failed_builds(abs: Seq<ActiveBuild>, uid: HubUid) -> Seq<ActiveBuild> {
    Seq::new(abs.len(), |k: int| if abs[k].build_uid == Some(uid) { ActiveBuild { build_uid: None, ..abs[k] } } else { abs[k] })
}

/// The entries after the run `uid` ended.
pub open spec fn ended_runs(abs: Seq<ActiveBuild>, uid: HubUid) -> Seq<ActiveBuild> {
    Seq::new(abs.len(), |k: int| if abs[k].run_uid == Some(uid) { ActiveBuild { run_uid: None, ..abs[k] } } else { abs[k] })
}

/// The part of the manager's state that the build/run lifecycle moves through.
pub struct Lifecycle {
    pub builds: Seq<ActiveBuild>,
    pub exec_when_done: bool,
    pub next: int,
}

/// The lifecycle after `CargoEnd { uid, result }`, with the requests it
/// sends. The end of the last outstanding build starts every executable
/// when a run was asked for, and that request is then spent.
pub open spec fn cargo_end_step(s: Lifecycle, uid: HubUid, result: BuildResult) -> (Lifecycle, Seq<ToHubMsgView>) {
    if !tracks(s.builds, uid) {
        (s, Seq::empty())
    } else {
        let a1 = cargo_end_builds(s.builds, uid, result);
        if s.exec_when_done && !any_building(a1) {
            (Lifecycle { builds: after_run(a1, s.next), exec_when_done: false, next: s.next + n_exec(a1) }, run_msgs(a1, s.next))
        } else {
            (Lifecycle { builds: a1, ..s }, Seq::empty())
        }
    }
}

impl BuildManager {
    pub open spec fn lifecycle(&self) -> Lifecycle {
        Lifecycle { builds: self.active_builds@, exec_when_done: self.exec_when_done, next: self.uids.next as int }
    }

    /// Every field is as in `other`.
    pub open spec fn same_as(&self, other: &BuildManager) -> bool {
        &&& self.same_but_log(other)
        &&& self.log_items@ == other.log_items@
    }

    /// The fields other than the entries and the identifiers are as in `other`.
    pub open spec fn same_console(&self, other: &BuildManager) -> bool {
        &&& self.log_items@ == other.log_items@
        &&& self.tail_log_items == other.tail_log_items
        &&& self.artifacts@ == other.artifacts@
    }
}

/// What `handle_hub_msg` does: `pre`/`post` are the manager, `bs` the text
/// buffers, `sent` the requests and `sig` the notifications, before and after.
pub open spec fn hub_msg_effect(
    pre: BuildManager,
    post: BuildManager,
    bs_pre: Seq<TextBufferView>,
    bs_post: Seq<TextBufferView>,
    sent_pre: Seq<ToHubMsgView>,
    sent_post: Seq<ToHubMsgView>,
    sig_pre: Seq<BuildStatus>,
    sig_post: Seq<BuildStatus>,
    settings: BuildSettings,
    msg: HubMsg,
) -> bool {
    let abs = pre.active_builds@;
    let quiet = post.same_as(&pre) && bs_post == bs_pre && sent_post == sent_pre && sig_post == sig_pre;
    match msg {
        HubMsg::ListBuildersResponse { .. } => {
            &&& bs_post == cleared(bs_pre)
            &&& post.active_builds@ == fresh_builds(settings.builds@, pre.uids.next as int)
            &&& post.uids.next == pre.uids.next + settings.builds@.len()
            &&& post.exec_when_done == settings.exec_when_done
            &&& post.log_items@.len() == 0
            &&& post.artifacts@.len() == 0
            &&& post.tail_log_items == pre.tail_log_items
            &&& sent_post == sent_pre + kill_msgs(abs) + build_msgs(settings.builds@, pre.uids.next as int)
            &&& sig_post == sig_pre
        },
        HubMsg::CargoBegin { uid } => if tracks(abs, uid) {
            post.same_as(&pre) && bs_post == bs_pre && sent_post == sent_pre && sig_post == sig_pre.push(BuildStatus::NewLogItem)
        } else {
            quiet
        },
        HubMsg::LogItem { uid, item } => if tracks(abs, uid) {
            &&& post.same_but_log(&pre)
            &&& log_appended(pre.log_items@, pre.tail_log_items, item, post.log_items@)
            &&& bs_post == match item.loc_message_spec() {
                Some(m) => with_loc_message(bs_pre, m, level_of(item)),
                None => bs_pre,
            }
            &&& sent_post == sent_pre
            &&& sig_post == sig_pre + limit_signals(pre.log_items@.len(), pre.tail_log_items).push(BuildStatus::NewLogItem)
        } else {
            quiet
        },
        HubMsg::CargoArtifact { uid, package_id, .. } => if tracks(abs, uid) {
            &&& post.artifacts@ == pre.artifacts@.push(package_id)
            &&& post.active_builds@ == abs
            &&& post.exec_when_done == pre.exec_when_done
            &&& post.log_items@ == pre.log_items@
            &&& post.tail_log_items == pre.tail_log_items
            &&& post.uids == pre.uids
            &&& bs_post == bs_pre && sent_post == sent_pre
            &&& sig_post == sig_pre.push(BuildStatus::NewArtifact)
        } else {
            quiet
        },
        HubMsg::BuildFailure { uid } => {
            &&& post.active_builds@ == if tracks(abs, uid) { failed_builds(abs, uid) } else { abs }
            &&& post.same_console(&pre)
            &&& post.exec_when_done == pre.exec_when_done
            &&& post.uids == pre.uids
            &&& bs_post == bs_pre && sent_post == sent_pre && sig_post == sig_pre
        },
        HubMsg::CargoEnd { uid, build_result } => {
            let (l, sends) = cargo_end_step(pre.lifecycle(), uid, build_result);
            &&& post.lifecycle() == l
            &&& post.same_console(&pre)
            &&& bs_post == bs_pre
            &&& sent_post == sent_pre + sends
            &&& sig_post == if tracks(abs, uid) { sig_pre.push(BuildStatus::CargoEnd) } else { sig_pre }
        },
        HubMsg::ProgramEnd { uid } => if tracks(abs, uid) {
            &&& post.active_builds@ == ended_runs(abs, uid)
            &&& post.same_console(&pre)
            &&& post.exec_when_done == pre.exec_when_done
            &&& post.uids == pre.uids
            &&& bs_post == bs_pre && sent_post == sent_pre
            &&& sig_post == sig_pre.push(BuildStatus::ProgramEnd)
        } else {
            quiet
        },
        _ => quiet,
    }
}

impl BuildManager {
    pub open spec fn wf(&self) -> bool {
        builds_wf(self.active_builds@, self.uids.next)
    }

    /// Everything but the log is as in `other`.
    pub open spec fn same_but_log(&self, other: &BuildManager) -> bool {
        &&& self.active_builds@ == other.active_builds@
        &&& self.exec_when_done == other.exec_when_done
        &&& self.tail_log_items == other.tail_log_items
        &&& self.artifacts@ == other.artifacts@
        &&& self.uids == other.uids
    }

    pub fn new() -> (r: BuildManager)
        ensures
            r.wf(),
            r.active_builds@.len() == 0,
            !r.exec_when_done,
            r.log_items@.len() == 0,
            r.tail_log_items,
            r.artifacts@.len() == 0,
            r.uids.next == 0,
    {
        BuildManager {
            active_builds: Vec::new(),
            exec_when_done: false,
            log_items: Vec::new(),
            tail_log_items: true,
            artifacts: Vec::new(),
            uids: UidAlloc::new(),
        }
    }

    pub fn status_new_log_item() -> (r: BuildStatus)
        ensures
            r == BuildStatus::NewLogItem,
    {
        BuildStatus::NewLogItem
    }

    pub fn status_new_artifact() -> (r: BuildStatus)
        ensures
            r == BuildStatus::NewArtifact,
    {
        BuildStatus::NewArtifact
    }

    pub fn status_cargo_end() -> (r: BuildStatus)
        ensures
            r == BuildStatus::CargoEnd,
    {
        BuildStatus::CargoEnd
    }

    pub fn status_program_end() -> (r: BuildStatus)
        ensures
            r == BuildStatus::ProgramEnd,
    {
        BuildStatus::ProgramEnd
    }

    /// Removes every diagnostic marker from the text buffers.
    pub fn clear_textbuffer_messages(&self, store: &mut TextBuffers)
        requires
            old(store).wf(),
        ensures
            final(store).wf(),
            final(store)@ == cleared(old(store)@),
    {
        store.clear_messages();
    }

    /// `uid` belongs to a build or run this manager is waiting on.
    pub fn is_running_uid(&self, uid: &HubUid) -> (r: bool)
        ensures
            r == tracks(self.active_builds@, *uid),
    {
        let mut i: usize = 0;
        while i < self.active_builds.len()
            invariant
                i <= self.active_builds@.len(),
                forall|j: int| 0 <= j < i ==> !(self.active_builds@[j].build_uid == Some(*uid) || self.active_builds@[j].run_uid == Some(*uid)),
            decreases self.active_builds@.len() - i,
        {
            if same_uid(&self.active_builds[i].build_uid, uid) || same_uid(&self.active_builds[i].run_uid, uid) {
                return true;
            }
            i = i + 1;
        }
        false
    }

    pub fn is_any_cargo_running(&self) -> (r: bool)
        ensures
            r == any_building(self.active_builds@),
    {
        let mut i: usize = 0;
        while i < self.active_builds.len()
            invariant
                i <= self.active_builds@.len(),
                forall|j: int| 0 <= j < i ==> self.active_builds@[j].build_uid.is_none(),
            decreases self.active_builds@.len() - i,
        {
            if self.active_builds[i].build_uid.is_some() {
                return true;
            }
            i = i + 1;
        }
        false
    }

    pub fn is_any_artifact_running(&self) -> (r: bool)
        ensures
            r == any_running(self.active_builds@),
    {
        let mut i: usize = 0;
        while i < self.active_builds.len()
            invariant
                i <= self.active_builds@.len(),
                forall|j: int| 0 <= j < i ==> self.active_builds@[j].run_uid.is_none(),
            decreases self.active_builds@.len() - i,
        {
            if self.active_builds[i].run_uid.is_some() {
                return true;
            }
            i = i + 1;
        }
        false
    }

    /// Attaches a located diagnostic to the text buffer of its path, in
    /// order of its start; a buffer that already holds the most markers it
    /// may takes no more.
    pub fn process_loc_message_for_textbuffers(
        &self,
        loc_message: &LocMessage,
        level: TextBufferMessageLevel,
        store: &mut TextBuffers,
    )
        requires
            old(store).wf(),
        ensures
            final(store).wf(),
            final(store)@ == with_loc_message(old(store)@, *loc_message, level),
    {
        let idx = store.text_buffer_from_path(&loc_message.path);
        if store.buffers[idx].messages.len() >= MAX_BUFFER_MESSAGES {
            return;
        }
        if let Some((head, tail)) = loc_message.range {
            let msg = TextBufferMessage { head, tail, level, body: loc_message.body.clone() };
            store.insert_message(idx, msg);
        }
    }

    /// Keeps the log within its cap before an item is added. Returns
    /// whether the item may be added. In tail mode a full log is cut back
    /// to its oldest items and a truncation notice; otherwise a single
    /// skipping notice is added and the log stops growing.
    pub fn handle_log_item_limit(&mut self, out: &mut Outbox) -> (accept: bool)
        ensures
            final(self).same_but_log(old(self)),
            accept == (old(self).log_items@.len() < MAX_LOG_ITEMS),
            accept ==> final(self).log_items@ == old(self).log_items@,
            !accept ==> log_limited(old(self).log_items@, old(self).tail_log_items, final(self).log_items@),
            final(out).sends@ == old(out).sends@,
            final(out).signals@ == old(out).signals@ + limit_signals(old(self).log_items@.len(), old(self).tail_log_items),
    {
        let len = self.log_items.len();
        if len >= MAX_LOG_ITEMS {
            if self.tail_log_items {
                self.log_items.truncate(RETAINED_LOG_ITEMS);
                let notice = String::from_str("------------ Log truncated here -----------");
                self.log_items.push(HubLogItem::Message(notice));
                assert(self.log_items@.subrange(0, RETAINED_LOG_ITEMS as int) =~= old(self).log_items@.subrange(0, RETAINED_LOG_ITEMS as int));
            } else if len == MAX_LOG_ITEMS {
                let notice = String::from_str("------------ Log skipping, press tail to resume -----------");
                self.log_items.push(HubLogItem::Message(notice));
                out.signals.push(BuildStatus::NewLogItem);
                assert(self.log_items@.subrange(0, len as int) =~= old(self).log_items@);
            }
            return false;
        }
        assert(out.signals@ =~= old(out).signals@ + limit_signals(old(self).log_items@.len(), old(self).tail_log_items));
        true
    }

    /// Starts every executable that a finished build produced, each under a
    /// fresh identifier; a run still outstanding for the same target is
    /// killed first, so that two runs of one target never coexist.
    pub fn run_all_artifacts(&mut self, out: &mut Outbox)
        requires
            old(self).wf(),
            old(self).uids.has_room(n_exec(old(self).active_builds@) as int),
        ensures
            final(self).wf(),
            final(self).active_builds@ == after_run(old(self).active_builds@, old(self).uids.next as int),
            final(self).uids.next == old(self).uids.next + n_exec(old(self).active_builds@),
            final(self).exec_when_done == old(self).exec_when_done,
            final(self).log_items@ == old(self).log_items@,
            final(self).tail_log_items == old(self).tail_log_items,
            final(self).artifacts@ == old(self).artifacts@,
            sent_view(final(out).sends@) == sent_view(old(out).sends@) + run_msgs(old(self).active_builds@, old(self).uids.next as int),
            final(out).signals@ == old(out).signals@,
    {
        let ghost abs0 = self.active_builds@;
        let ghost next0 = self.uids.next as int;
        let ghost sends0 = sent_view(out.sends@);
        proof {
            lemma_n_exec_len(abs0);
            assert(abs0.subrange(0, 0) =~= Seq::<ActiveBuild>::empty());
        }
        let mut i: usize = 0;
        while i < self.active_builds.len()
            invariant
                i <= abs0.len(),
                self.active_builds@.len() == abs0.len(),
                forall|k: int| 0 <= k < i ==> self.active_builds@[k] == after_run(abs0, next0)[k],
                forall|k: int| i <= k < abs0.len() ==> self.active_builds@[k] == abs0[k],
                self.uids.next == next0 + n_exec(abs0.subrange(0, i as int)),
                next0 + n_exec(abs0) <= u64::MAX,
                builds_wf(abs0, next0 as u64),
                sent_view(out.sends@) == sends0 + run_msgs(abs0.subrange(0, i as int), next0),
                out.signals@ == old(out).signals@,
                self.exec_when_done == old(self).exec_when_done,
                self.log_items@ == old(self).log_items@,
                self.tail_log_items == old(self).tail_log_items,
                self.artifacts@ == old(self).artifacts@,
            decreases abs0.len() - i,
        {
            proof {
                lemma_prefix_step(abs0, i as int);
                lemma_run_msgs_shift(abs0, i as int, next0);
                lemma_n_exec_bound(abs0, i as int + 1);
            }
            let path = match &self.active_builds[i].build_result {
                Some(BuildResult::Executable { path }) => Some(path.clone()),
                _ => None,
            };
            if let Some(path) = path {
                let uid = self.uids.alloc_uid();
                let builder = self.active_builds[i].build_target.builder.clone();
                if let Some(run_uid) = self.active_builds[i].run_uid {
                    let m = ToHubMsg { to: HubMsgTo::Builder(builder.clone()), msg: HubMsg::ProgramKill { uid: run_uid } };
                    proof { lemma_sent_push(out.sends@, m); }
                    out.sends.push(m);
                }
                self.active_builds[i].run_uid = Some(uid);
                let m = ToHubMsg { to: HubMsgTo::Builder(builder), msg: HubMsg::ProgramRun { uid, path, args: Vec::new() } };
                proof { lemma_sent_push(out.sends@, m); }
                out.sends.push(m);
                proof {
                    assert(m@.msg == (HubMsgView::ProgramRun { uid, path, args: Seq::empty() }));
                    assert(sent_view(out.sends@) =~= sends0 + run_msgs(abs0.subrange(0, i as int + 1), next0));
                }
            } else {
                assert(runs_of(abs0[i as int], next0 + n_exec(abs0.subrange(0, i as int))) =~= Seq::<ToHubMsgView>::empty());
                assert(sent_view(out.sends@) =~= sends0 + run_msgs(abs0.subrange(0, i as int + 1), next0));
            }
            i = i + 1;
        }
        proof {
            assert(abs0.subrange(0, abs0.len() as int) =~= abs0);
            assert(self.active_builds@ =~= after_run(abs0, next0));
            let a = self.active_builds@;
            let nx = self.uids.next;
            assert forall|k: int| 0 <= k < a.len() implies uid_below(#[trigger] a[k].build_uid, nx) && uid_below(a[k].run_uid, nx) by {
                if is_executable(abs0[k]) {
                    lemma_n_exec_bound(abs0, k);
                    lemma_prefix_step(abs0, k);
                    lemma_n_exec_bound(abs0, k + 1);
                }
            }
            assert forall|i: int, j: int|
                0 <= i < a.len() && 0 <= j < a.len() && i != j && (#[trigger] a[i].run_uid).is_some()
                    implies a[i].run_uid != (#[trigger] a[j].run_uid) by {
                lemma_n_exec_bound(abs0, i);
                lemma_n_exec_bound(abs0, j);
                if is_executable(abs0[i]) && is_executable(abs0[j]) {
                    if i < j {
                        lemma_n_exec_mono(abs0, i, j);
                    } else {
                        lemma_n_exec_mono(abs0, j, i);
                    }
                } else if is_executable(abs0[i]) {
                    assert(uid_below(abs0[j].run_uid, next0 as u64));
                } else if is_executable(abs0[j]) {
                    assert(uid_below(abs0[i].run_uid, next0 as u64));
                }
            }
            assert forall|i: int, j: int|
                0 <= i < a.len() && 0 <= j < a.len() && (#[trigger] a[i].build_uid).is_some()
                    implies a[i].build_uid != (#[trigger] a[j].run_uid) by {
                lemma_n_exec_bound(abs0, j);
                assert(uid_below(abs0[i].build_uid, next0 as u64));
            }
        }
    }

    /// Runs every executable now if no build is outstanding; otherwise
    /// arranges for that to happen once the last outstanding build ends.
    pub fn artifact_run(&mut self, out: &mut Outbox)
        requires
            old(self).wf(),
            old(self).uids.has_room(old(self).active_builds@.len() as int),
        ensures
            final(self).wf(),
            any_building(old(self).active_builds@) ==> {
                &&& final(self).exec_when_done
                &&& final(self).active_builds@ == old(self).active_builds@
                &&& final(self).uids == old(self).uids
                &&& final(out).sends@ == old(out).sends@
            },
            !any_building(old(self).active_builds@) ==> {
                &&& final(self).exec_when_done == old(self).exec_when_done
                &&& final(self).active_builds@ == after_run(old(self).active_builds@, old(self).uids.next as int)
                &&& final(self).uids.next == old(self).uids.next + n_exec(old(self).active_builds@)
                &&& sent_view(final(out).sends@) == sent_view(old(out).sends@) + run_msgs(old(self).active_builds@, old(self).uids.next as int)
            },
            final(self).log_items@ == old(self).log_items@,
            final(self).tail_log_items == old(self).tail_log_items,
            final(self).artifacts@ == old(self).artifacts@,
            final(out).signals@ == old(out).signals@,
    {
        if self.is_any_cargo_running() {
            self.exec_when_done = true;
        } else {
            proof { lemma_n_exec_len(self.active_builds@); }
            self.run_all_artifacts(out);
        }
    }

    /// Kills everything outstanding, clears the console, the artifacts and
    /// the diagnostic markers, and requests a fresh build of every
    /// configured target.
    pub fn restart_build(&mut self, settings: &BuildSettings, store: &mut TextBuffers, out: &mut Outbox)
        requires
            old(self).wf(),
            old(store).wf(),
            old(self).uids.has_room(settings.builds@.len() as int),
        ensures
            final(self).wf(),
            final(store).wf(),
            final(store)@ == cleared(old(store)@),
            final(self).active_builds@ == fresh_builds(settings.builds@, old(self).uids.next as int),
            final(self).uids.next == old(self).uids.next + settings.builds@.len(),
            final(self).exec_when_done == settings.exec_when_done,
            final(self).log_items@.len() == 0,
            final(self).artifacts@.len() == 0,
            final(self).tail_log_items == old(self).tail_log_items,
            sent_view(final(out).sends@) == sent_view(old(out).sends@) + kill_msgs(old(self).active_builds@)
                + build_msgs(settings.builds@, old(self).uids.next as int),
            final(out).signals@ == old(out).signals@,
    {
        self.artifacts.clear();
        self.log_items.clear();
        self.clear_textbuffer_messages(store);
        self.exec_when_done = settings.exec_when_done;
        let ghost abs0 = self.active_builds@;
        let ghost next0 = self.uids.next as int;
        let ghost sends0 = sent_view(out.sends@);
        assert(abs0.subrange(0, 0) =~= Seq::<ActiveBuild>::empty());
        let mut i: usize = 0;
        while i < self.active_builds.len()
            invariant
                i <= abs0.len(),
                self.active_builds@ == abs0,
                self.uids.next == next0,
                sent_view(out.sends@) == sends0 + kill_msgs(abs0.subrange(0, i as int)),
                out.signals@ == old(out).signals@,
                self.exec_when_done == settings.exec_when_done,
                self.log_items@.len() == 0,
                self.artifacts@.len() == 0,
                self.tail_log_items == old(self).tail_log_items,
            decreases abs0.len() - i,
        {
            proof { lemma_prefix_step(abs0, i as int); }
            let builder = &self.active_builds[i].build_target.builder;
            let ghost mid = sent_view(out.sends@);
            if let Some(build_uid) = self.active_builds[i].build_uid {
                let m = ToHubMsg { to: HubMsgTo::Builder(builder.clone()), msg: HubMsg::BuildKill { uid: build_uid } };
                proof { lemma_sent_push(out.sends@, m); }
                out.sends.push(m);
            }
            if let Some(run_uid) = self.active_builds[i].run_uid {
                let m = ToHubMsg { to: HubMsgTo::Builder(builder.clone()), msg: HubMsg::ProgramKill { uid: run_uid } };
                proof { lemma_sent_push(out.sends@, m); }
                out.sends.push(m);
            }
            assert(sent_view(out.sends@) =~= sends0 + kill_msgs(abs0.subrange(0, i as int + 1)));
            i = i + 1;
        }
        assert(abs0.subrange(0, abs0.len() as int) =~= abs0);
        self.active_builds.clear();
        let ghost sends1 = sent_view(out.sends@);
        let ghost ts = settings.builds@;
        let mut k: usize = 0;
        while k < settings.builds.len()
            invariant
                k <= ts.len(),
                ts == settings.builds@,
                next0 + ts.len() <= u64::MAX,
                self.uids.next == next0 + k,
                self.active_builds@ == fresh_builds(ts, next0).subrange(0, k as int),
                sent_view(out.sends@) == sends1 + build_msgs(ts, next0).subrange(0, k as int),
                out.signals@ == old(out).signals@,
                self.exec_when_done == settings.exec_when_done,
                self.log_items@.len() == 0,
                self.artifacts@.len() == 0,
                self.tail_log_items == old(self).tail_log_items,
            decreases ts.len() - k,
        {
            let target = &settings.builds[k];
            let uid = self.uids.alloc_uid();
            let m = ToHubMsg {
                to: HubMsgTo::Builder(target.builder.clone()),
                msg: HubMsg::Build {
                    uid,
                    workspace: target.workspace.clone(),
                    package: target.package.clone(),
                    config: target.config.clone(),
                },
            };
            proof { lemma_sent_push(out.sends@, m); }
            out.sends.push(m);
            self.active_builds.push(ActiveBuild { build_target: target.duplicate(), build_result: None, build_uid: Some(uid), run_uid: None });
            proof {
                assert(self.active_builds@ =~= fresh_builds(ts, next0).subrange(0, k as int + 1));
                assert(sent_view(out.sends@) =~= sends1 + build_msgs(ts, next0).subrange(0, k as int + 1));
            }
            k = k + 1;
        }
        proof {
            assert(fresh_builds(ts, next0).subrange(0, ts.len() as int) =~= fresh_builds(ts, next0));
            assert(build_msgs(ts, next0).subrange(0, ts.len() as int) =~= build_msgs(ts, next0));
            assert(sent_view(out.sends@) =~= sends0 + kill_msgs(abs0) + build_msgs(ts, next0));
        }
    }

    /// Reacts to one message from the hub. Messages about identifiers this
    /// manager is not waiting on change nothing.
    pub fn handle_hub_msg(&mut self, settings: &BuildSettings, store: &mut TextBuffers, htc: &HubMsg, out: &mut Outbox)
        requires
            old(self).wf(),
            old(store).wf(),
            old(self).uids.has_room(settings.builds@.len() as int),
            old(self).uids.has_room(old(self).active_builds@.len() as int),
        ensures
            final(self).wf(),
            final(store).wf(),
            hub_msg_effect(
                *old(self),
                *final(self),
                old(store)@,
                final(store)@,
                sent_view(old(out).sends@),
                sent_view(final(out).sends@),
                old(out).signals@,
                final(out).signals@,
                *settings,
                *htc,
            ),
    {
        match htc {
            HubMsg::ListBuildersResponse { .. } => {
                self.restart_build(settings, store, out);
            },
            HubMsg::CargoBegin { uid } => {
                if self.is_running_uid(uid) {
                    out.signals.push(BuildStatus::NewLogItem);
                }
            },
            HubMsg::LogItem { uid, item } => {
                if self.is_running_uid(uid) {
                    self.on_log_item(item, store, out);
                }
            },
            HubMsg::CargoArtifact { uid, package_id, fresh: _ } => {
                if self.is_running_uid(uid) {
                    self.artifacts.push(package_id.clone());
                    out.signals.push(BuildStatus::NewArtifact);
                }
            },
            HubMsg::BuildFailure { uid } => {
                if self.is_running_uid(uid) {
                    self.on_build_failure(uid);
                }
            },
            HubMsg::CargoEnd { uid, build_result } => {
                if self.is_running_uid(uid) {
                    self.on_cargo_end(uid, build_result, out);
                }
            },
            HubMsg::ProgramEnd { uid } => {
                if self.is_running_uid(uid) {
                    self.on_program_end(uid);
                    out.signals.push(BuildStatus::ProgramEnd);
                }
            },
            _ => {},
        }
    }

    fn on_log_item(&mut self, item: &HubLogItem, store: &mut TextBuffers, out: &mut Outbox)
        requires
            old(store).wf(),
        ensures
            final(store).wf(),
            final(self).same_but_log(old(self)),
            log_appended(old(self).log_items@, old(self).tail_log_items, *item, final(self).log_items@),
            final(store)@ == match item.loc_message_spec() {
                Some(m) => with_loc_message(old(store)@, m, level_of(*item)),
                None => old(store)@,
            },
            final(out).sends@ == old(out).sends@,
            final(out).signals@ == old(out).signals@ + limit_signals(old(self).log_items@.len(), old(self).tail_log_items).push(BuildStatus::NewLogItem),
    {
        if self.handle_log_item_limit(out) {
            self.log_items.push(item.duplicate());
        }
        if let Some(loc_message) = item.get_loc_message() {
            let level = level_for(item);
            self.process_loc_message_for_textbuffers(loc_message, level, store);
        }
        out.signals.push(BuildStatus::NewLogItem);
        assert(out.signals@ =~= old(out).signals@ + limit_signals(old(self).log_items@.len(), old(self).tail_log_items).push(BuildStatus::NewLogItem));
    }

    fn on_build_failure(&mut self, uid: &HubUid)
        requires
            old(self).wf(),
        ensures
            final(self).wf(),
            final(self).active_builds@ == failed_builds(old(self).active_builds@, *uid),
            final(self).same_console(old(self)),
            final(self).exec_when_done == old(self).exec_when_done,
            final(self).uids == old(self).uids,
    {
        let ghost abs0 = self.active_builds@;
        let mut i: usize = 0;
        while i < self.active_builds.len()
            invariant
                i <= abs0.len(),
                self.active_builds@.len() == abs0.len(),
                forall|k: int| 0 <= k < i ==> self.active_builds@[k] == failed_builds(abs0, *uid)[k],
                forall|k: int| i <= k < abs0.len() ==> self.active_builds@[k] == abs0[k],
                self.same_console(old(self)),
                self.exec_when_done == old(self).exec_when_done,
                self.uids == old(self).uids,
            decreases abs0.len() - i,
        {
            if same_uid(&self.active_builds[i].build_uid, uid) {
                self.active_builds[i].build_uid = None;
            }
            i = i + 1;
        }
        assert(self.active_builds@ =~= failed_builds(abs0, *uid));
    }

    fn on_program_end(&mut self, uid: &HubUid)
        requires
            old(self).wf(),
        ensures
            final(self).wf(),
            final(self).active_builds@ == ended_runs(old(self).active_builds@, *uid),
            final(self).same_console(old(self)),
            final(self).exec_when_done == old(self).exec_when_done,
            final(self).uids == old(self).uids,
    {
        let ghost abs0 = self.active_builds@;
        let mut i: usize = 0;
        while i < self.active_builds.len()
            invariant
                i <= abs0.len(),
                self.active_builds@.len() == abs0.len(),
                forall|k: int| 0 <= k < i ==> self.active_builds@[k] == ended_runs(abs0, *uid)[k],
                forall|k: int| i <= k < abs0.len() ==> self.active_builds@[k] == abs0[k],
                self.same_console(old(self)),
                self.exec_when_done == old(self).exec_when_done,
                self.uids == old(self).uids,
            decreases abs0.len() - i,
        {
            if same_uid(&self.active_builds[i].run_uid, uid) {
                self.active_builds[i].run_uid = None;
            }
            i = i + 1;
        }
        assert(self.active_builds@ =~= ended_runs(abs0, *uid));
    }

    fn on_cargo_end(&mut self, uid: &HubUid, result: &BuildResult, out: &mut Outbox)
        requires
            old(self).wf(),
            old(self).uids.has_room(old(self).active_builds@.len() as int),
            tracks(old(self).active_builds@, *uid),
        ensures
            final(self).wf(),
            (final(self).lifecycle(), sent_view(final(out).sends@)) == ({
                let (l, sends) = cargo_end_step(old(self).lifecycle(), *uid, *result);
                (l, sent_view(old(out).sends@) + sends)
            }),
            final(self).same_console(old(self)),
            final(out).signals@ == old(out).signals@.push(BuildStatus::CargoEnd),
    {
        let ghost abs0 = self.active_builds@;
        let mut i: usize = 0;
        while i < self.active_builds.len()
            invariant
                i <= abs0.len(),
                self.active_builds@.len() == abs0.len(),
                forall|k: int| 0 <= k < i ==> self.active_builds@[k] == cargo_end_builds(abs0, *uid, *result)[k],
                forall|k: int| i <= k < abs0.len() ==> self.active_builds@[k] == abs0[k],
                self.same_console(old(self)),
                self.exec_when_done == old(self).exec_when_done,
                self.uids == old(self).uids,
            decreases abs0.len() - i,
        {
            if same_uid(&self.active_builds[i].build_uid, uid) {
                self.active_builds[i].build_uid = None;
                self.active_builds[i].build_result = Some(result.duplicate());
            }
            i = i + 1;
        }
        assert(self.active_builds@ =~= cargo_end_builds(abs0, *uid, *result));
        if !self.is_any_cargo_running() && self.exec_when_done {
            self.exec_when_done = false;
            proof { lemma_n_exec_len(self.active_builds@); }
            self.run_all_artifacts(out);
        } else {
            assert(sent_view(out.sends@) =~= sent_view(old(out).sends@) + Seq::<ToHubMsgView>::empty());
        }
        out.signals.push(BuildStatus::CargoEnd);
    }

    /// Adds a plain message to the log, within the log's cap.
    pub fn add_log_message(&mut self, msg: String, out: &mut Outbox)
        ensures
            final(self).same_but_log(old(self)),
            log_appended(old(self).log_items@, old(self).tail_log_items, HubLogItem::Message(msg), final(self).log_items@),
            final(out).sends@ == old(out).sends@,
            final(out).signals@ == old(out).signals@ + limit_signals(old(self).log_items@.len(), old(self).tail_log_items).push(BuildStatus::NewLogItem),
    {
        let ghost item = HubLogItem::Message(msg);
        if self.handle_log_item_limit(out) {
            self.log_items.push(HubLogItem::Message(msg));
        }
        out.signals.push(BuildStatus::NewLogItem);
        assert(out.signals@ =~= old(out).signals@ + limit_signals(old(self).log_items@.len(), old(self).tail_log_items).push(BuildStatus::NewLogItem));
    }
}

/// The marker level for `item`.
fn level_for(item: &HubLogItem) -> (r: TextBufferMessageLevel)
    ensures
        r == level_of(*item),
{
    match item {
        HubLogItem::LocPanic(_) => TextBufferMessageLevel::Log,
        HubLogItem::LocError(_) => TextBufferMessageLevel::Error,
        HubLogItem::LocWarning(_) => TextBufferMessageLevel::Warning,
        HubLogItem::LocMessage(_) => TextBufferMessageLevel::Log,
        HubLogItem::Error(_) => TextBufferMessageLevel::Error,
        HubLogItem::Warning(_) => TextBufferMessageLevel::Warning,
        HubLogItem::Message(_) => TextBufferMessageLevel::Log,
    }
}

/// `u` holds `uid`.
fn same_uid(u: &Option<HubUid>, uid: &HubUid) -> (r: bool)
    ensures
        r == (*u == Some(*uid)),
{
    match u {
        Some(x) => *x == *uid,
        None => false,
    }
}


/// The identifier a message from a builder is about.
pub open spec fn msg_uid(msg: HubMsg) -> Option<HubUid> {
    match msg {
        HubMsg::CargoBegin { uid } => Some(uid),
        HubMsg::LogItem { uid, .. } => Some(uid),
        HubMsg::CargoArtifact { uid, .. } => Some(uid),
        HubMsg::BuildFailure { uid } => Some(uid),
        HubMsg::CargoEnd { uid, .. } => Some(uid),
        HubMsg::ProgramEnd { uid } => Some(uid),
        _ => None,
    }
}

/// After a restart that allocated from `generation` on, a message about an
/// identifier minted before the restart changes no entry, sends nothing and
/// leaves the run request as it was.
pub proof fn lemma_restart_isolates_old_uids(
    ts: Seq<BuildTarget>,
    generation: u64,
    uid: HubUid,
    pre: BuildManager,
    post: BuildManager,
    bs_pre: Seq<TextBufferView>,
    bs_post: Seq<TextBufferView>,
    sent_pre: Seq<ToHubMsgView>,
    sent_post: Seq<ToHubMsgView>,
    sig_pre: Seq<BuildStatus>,
    sig_post: Seq<BuildStatus>,
    settings: BuildSettings,
    msg: HubMsg,
)
    requires
        generation + ts.len() <= u64::MAX,
        pre.active_builds@ == fresh_builds(ts, generation as int),
        uid.id < generation,
        msg_uid(msg) == Some(uid),
        hub_msg_effect(pre, post, bs_pre, bs_post, sent_pre, sent_post, sig_pre, sig_post, settings, msg),
    ensures
        post.lifecycle() == pre.lifecycle(),
        sent_post == sent_pre,
{
    let abs = pre.active_builds@;
    assert(!tracks(abs, uid)) by {
        if tracks(abs, uid) {
            let i = choose|i: int| 0 <= i < abs.len() && (abs[i].build_uid == Some(uid) || abs[i].run_uid == Some(uid));
            assert(abs[i].build_uid == Some(HubUid { id: (generation + i) as u64 }));
        }
    }
    assert(sent_post =~= sent_pre);
}

/// A message about an identifier the manager was waiting on before a
/// restart is ignored after it: `restarted` is the manager right after
/// `restart_build` on `before`, and the message changes none of its entries
/// and sends nothing.
pub proof fn lemma_stale_uid_ignored_after_restart(
    before: BuildManager,
    restarted: BuildManager,
    uid: HubUid,
    post: BuildManager,
    bs_pre: Seq<TextBufferView>,
    bs_post: Seq<TextBufferView>,
    sent_pre: Seq<ToHubMsgView>,
    sent_post: Seq<ToHubMsgView>,
    sig_pre: Seq<BuildStatus>,
    sig_post: Seq<BuildStatus>,
    settings: BuildSettings,
    msg: HubMsg,
)
    requires
        before.wf(),
        tracks(before.active_builds@, uid),
        before.uids.has_room(settings.builds@.len() as int),
        restarted.active_builds@ == fresh_builds(settings.builds@, before.uids.next as int),
        msg_uid(msg) == Some(uid),
        hub_msg_effect(restarted, post, bs_pre, bs_post, sent_pre, sent_post, sig_pre, sig_post, settings, msg),
    ensures
        post.active_builds@ == restarted.active_builds@,
        post.lifecycle() == restarted.lifecycle(),
        sent_post == sent_pre,
{
    let abs = before.active_builds@;
    let i = choose|i: int| 0 <= i < abs.len() && (abs[i].build_uid == Some(uid) || abs[i].run_uid == Some(uid));
    assert(uid_below(abs[i].build_uid, before.uids.next) && uid_below(abs[i].run_uid, before.uids.next));
    lemma_restart_isolates_old_uids(settings.builds@, before.uids.next, uid, restarted, post, bs_pre, bs_post, sent_pre, sent_post, sig_pre, sig_post, settings, msg);
}

/// The end of a build while another build is still outstanding starts
/// nothing: it only records the result of that build.
pub proof fn lemma_end_before_last_runs_nothing(
    pre: BuildManager,
    post: BuildManager,
    bs_pre: Seq<TextBufferView>,
    bs_post: Seq<TextBufferView>,
    sent_pre: Seq<ToHubMsgView>,
    sent_post: Seq<ToHubMsgView>,
    sig_pre: Seq<BuildStatus>,
    sig_post: Seq<BuildStatus>,
    settings: BuildSettings,
    uid: HubUid,
    result: BuildResult,
    other: int,
)
    requires
        0 <= other < pre.active_builds@.len(),
        pre.active_builds@[other].build_uid.is_some(),
        pre.active_builds@[other].build_uid != Some(uid),
        hub_msg_effect(pre, post, bs_pre, bs_post, sent_pre, sent_post, sig_pre, sig_post, settings, HubMsg::CargoEnd { uid, build_result: result }),
    ensures
        sent_post == sent_pre,
        post.exec_when_done == pre.exec_when_done,
        post.uids == pre.uids,
        post.active_builds@ == if tracks(pre.active_builds@, uid) {
            cargo_end_builds(pre.active_builds@, uid, result)
        } else {
            pre.active_builds@
        },
{
    let a1 = cargo_end_builds(pre.active_builds@, uid, result);
    assert(a1[other].build_uid.is_some());
    assert(any_building(a1));
    assert(sent_post =~= sent_pre);
}

/// The end of the last outstanding build, with a run asked for, starts
/// every executable: one run request per executable entry, in order, each
/// under the identifier the entry then records; the request is spent.
pub proof fn lemma_last_end_runs_all(
    pre: BuildManager,
    post: BuildManager,
    bs_pre: Seq<TextBufferView>,
    bs_post: Seq<TextBufferView>,
    sent_pre: Seq<ToHubMsgView>,
    sent_post: Seq<ToHubMsgView>,
    sig_pre: Seq<BuildStatus>,
    sig_post: Seq<BuildStatus>,
    settings: BuildSettings,
    uid: HubUid,
    result: BuildResult,
)
    requires
        pre.exec_when_done,
        tracks(pre.active_builds@, uid),
        forall|j: int| 0 <= j < pre.active_builds@.len() && (#[trigger] pre.active_builds@[j].build_uid).is_some()
            ==> pre.active_builds@[j].build_uid == Some(uid),
        hub_msg_effect(pre, post, bs_pre, bs_post, sent_pre, sent_post, sig_pre, sig_post, settings, HubMsg::CargoEnd { uid, build_result: result }),
    ensures
        ({
            let a1 = cargo_end_builds(pre.active_builds@, uid, result);
            &&& sent_post == sent_pre + run_msgs(a1, pre.uids.next as int)
            &&& post.active_builds@ == after_run(a1, pre.uids.next as int)
            &&& post.uids.next == pre.uids.next + n_exec(a1)
        }),
        !post.exec_when_done,
        !any_building(post.active_builds@),
{
    let a1 = cargo_end_builds(pre.active_builds@, uid, result);
    assert(!any_building(a1)) by {
        if any_building(a1) {
            let w = choose|w: int| 0 <= w < a1.len() && a1[w].build_uid.is_some();
            assert(pre.active_builds@[w].build_uid.is_some());
        }
    }
    let a2 = after_run(a1, pre.uids.next as int);
    assert(!any_building(a2)) by {
        if any_building(a2) {
            let w = choose|w: int| 0 <= w < a2.len() && a2[w].build_uid.is_some();
            assert(a1[w].build_uid.is_some());
        }
    }
}

/// Once the deferred run has been started, no later build end starts
/// anything again until a new run is asked for.
pub proof fn lemma_spent_request_runs_nothing(
    pre: BuildManager,
    post: BuildManager,
    bs_pre: Seq<TextBufferView>,
    bs_post: Seq<TextBufferView>,
    sent_pre: Seq<ToHubMsgView>,
    sent_post: Seq<ToHubMsgView>,
    sig_pre: Seq<BuildStatus>,
    sig_post: Seq<BuildStatus>,
    settings: BuildSettings,
    uid: HubUid,
    result: BuildResult,
)
    requires
        !pre.exec_when_done,
        hub_msg_effect(pre, post, bs_pre, bs_post, sent_pre, sent_post, sig_pre, sig_post, settings, HubMsg::CargoEnd { uid, build_result: result }),
    ensures
        sent_post == sent_pre,
        !post.exec_when_done,
{
    assert(sent_post =~= sent_pre);
}

/// Two targets built with a run asked for: the first end starts nothing and
/// records its executable; the second end starts both executables, in
/// target order, each at its target's builder, under fresh identifiers
/// that differ from each other and from both build identifiers.
pub proof fn lemma_two_targets_run_after_second_end(ta: BuildTarget, tb: BuildTarget, g: u64, pa: String, pb: String)
    requires
        g + 4 <= u64::MAX,
    ensures
        ({
            let s0 = Lifecycle { builds: fresh_builds(seq![ta, tb], g as int), exec_when_done: true, next: g + 2 };
            let (s1, m1) = cargo_end_step(s0, HubUid { id: g }, BuildResult::Executable { path: pa });
            let (s2, m2) = cargo_end_step(s1, HubUid { id: (g + 1) as u64 }, BuildResult::Executable { path: pb });
            &&& m1.len() == 0
            &&& s1.builds[0].build_uid.is_none()
            &&& s1.builds[0].build_result == Some(BuildResult::Executable { path: pa })
            &&& s1.builds[0].run_uid.is_none()
            &&& s1.builds[1] == s0.builds[1]
            &&& m2 == seq![
                ToHubMsgView { to: HubMsgTo::Builder(ta.builder), msg: HubMsgView::ProgramRun { uid: HubUid { id: (g + 2) as u64 }, path: pa, args: Seq::empty() } },
                ToHubMsgView { to: HubMsgTo::Builder(tb.builder), msg: HubMsgView::ProgramRun { uid: HubUid { id: (g + 3) as u64 }, path: pb, args: Seq::empty() } },
            ]
            &&& s2.builds[0].run_uid == Some(HubUid { id: (g + 2) as u64 })
            &&& s2.builds[1].run_uid == Some(HubUid { id: (g + 3) as u64 })
            &&& s2.builds[0].build_uid.is_none() && s2.builds[1].build_uid.is_none()
            &&& !s2.exec_when_done
        }),
{
    let ua = HubUid { id: g };
    let ub = HubUid { id: (g + 1) as u64 };
    let ra = BuildResult::Executable { path: pa };
    let rb = BuildResult::Executable { path: pb };
    let s0 = Lifecycle { builds: fresh_builds(seq![ta, tb], g as int), exec_when_done: true, next: g + 2 };
    let b0 = s0.builds;
    assert(b0[0].build_uid == Some(ua));
    assert(b0[1].build_uid == Some(ub));
    assert(tracks(b0, ua));
    let a1 = cargo_end_builds(b0, ua, ra);
    assert(a1[1].build_uid.is_some());
    assert(any_building(a1));
    let s1 = Lifecycle { builds: a1, ..s0 };
    assert(cargo_end_step(s0, ua, ra) == (s1, Seq::<ToHubMsgView>::empty()));
    assert(tracks(a1, ub));
    let a2 = cargo_end_builds(a1, ub, rb);
    assert(!any_building(a2)) by {
        if any_building(a2) {
            let w = choose|w: int| 0 <= w < a2.len() && a2[w].build_uid.is_some();
            assert(w == 0 || w == 1);
        }
    }
    assert(is_executable(a2[0]) && is_executable(a2[1]));
    assert(a2.subrange(0, 1).drop_last() =~= a2.subrange(0, 0));
    assert(a2.drop_last() =~= a2.subrange(0, 1));
    assert(n_exec(a2.subrange(0, 0)) == 0);
    assert(n_exec(a2.subrange(0, 1)) == 1);
    assert(n_exec(a2) == 2);
    assert(run_msgs(a2.subrange(0, 0), g + 2) =~= Seq::<ToHubMsgView>::empty());
    assert(run_msgs(a2.subrange(0, 1), g + 2) == runs_of(a2[0], g + 2));
    let m2 = run_msgs(a2, g + 2);
    assert(m2 == runs_of(a2[0], g + 2) + runs_of(a2[1], g + 3));
    assert(m2 =~= seq![
        ToHubMsgView { to: HubMsgTo::Builder(ta.builder), msg: HubMsgView::ProgramRun { uid: HubUid { id: (g + 2) as u64 }, path: pa, args: Seq::empty() } },
        ToHubMsgView { to: HubMsgTo::Builder(tb.builder), msg: HubMsgView::ProgramRun { uid: HubUid { id: (g + 3) as u64 }, path: pb, args: Seq::empty() } },
    ]);
    let s2 = after_run(a2, g + 2);
    assert(s2[0].run_uid == Some(HubUid { id: (g + 2) as u64 }));
    assert(s2[1].run_uid == Some(HubUid { id: (g + 3) as u64 }));
}

/// Some entry waits on the build `uid`.
pub open spec fn has_build(abs: Seq<ActiveBuild>, uid: HubUid) -> bool {
    exists|i: int| 0 <= i < abs.len() && abs[i].build_uid == Some(uid)
}

/// `CargoEnd { uid, result }` starts the executables.
pub open spec fn fires(s: Lifecycle, uid: HubUid, result: BuildResult) -> bool {
    tracks(s.builds, uid) && s.exec_when_done && !any_building(cargo_end_builds(s.builds, uid, result))
}

/// The lifecycle after the first `k` of the given build ends.
pub open spec fn after_ends(s: Lifecycle, ends: Seq<HubUid>, results: Seq<BuildResult>, k: nat) -> Lifecycle
    decreases k,
{
    if k == 0 {
        s
    } else {
        cargo_end_step(after_ends(s, ends, results, (k - 1) as nat), ends[k - 1], results[k - 1]).0
    }
}

proof fn lemma_end_clears(abs: Seq<ActiveBuild>, uid: HubUid, result: BuildResult, v: HubUid)
    ensures
        has_build(cargo_end_builds(abs, uid, result), v) <==> (has_build(abs, v) && v != uid),
{
    let a1 = cargo_end_builds(abs, uid, result);
    if has_build(a1, v) {
        let i = choose|i: int| 0 <= i < a1.len() && a1[i].build_uid == Some(v);
        assert(abs[i].build_uid == Some(v));
    }
    if has_build(abs, v) && v != uid {
        let i = choose|i: int| 0 <= i < abs.len() && abs[i].build_uid == Some(v);
        assert(a1[i].build_uid == Some(v));
    }
}

proof fn lemma_ends_prefix(s: Lifecycle, ends: Seq<HubUid>, results: Seq<BuildResult>, k: nat)
    requires
        s.exec_when_done,
        ends.no_duplicates(),
        results.len() == ends.len(),
        k < ends.len(),
        forall|v: HubUid| has_build(s.builds, v) <==> ends.contains(v),
    ensures
        after_ends(s, ends, results, k).exec_when_done,
        forall|v: HubUid|
            has_build(after_ends(s, ends, results, k).builds, v) <==> (exists|j: int| k <= j < ends.len() && ends[j] == v),
        forall|j: int| 0 <= j < k ==> !fires(after_ends(s, ends, results, j as nat), ends[j], results[j]),
    decreases k,
{
    if k > 0 {
        let km = (k - 1) as nat;
        lemma_ends_prefix(s, ends, results, km);
        let p = after_ends(s, ends, results, km);
        let u = ends[km as int];
        let a1 = cargo_end_builds(p.builds, u, results[km as int]);
        assert(has_build(p.builds, u));
        let i = choose|i: int| 0 <= i < p.builds.len() && p.builds[i].build_uid == Some(u);
        assert(tracks(p.builds, u));
        assert forall|v: HubUid| has_build(a1, v) <==> (exists|j: int| k <= j < ends.len() && ends[j] == v) by {
            lemma_end_clears(p.builds, u, results[km as int], v);
            if exists|j: int| k <= j < ends.len() && ends[j] == v {
                let j = choose|j: int| k <= j < ends.len() && ends[j] == v;
                assert(ends[j] != ends[km as int]);
            }
        }
        assert(has_build(a1, ends[k as int]));
        let w = choose|w: int| 0 <= w < a1.len() && a1[w].build_uid == Some(ends[k as int]);
        assert(any_building(a1));
        assert(!fires(p, u, results[km as int]));
        assert(after_ends(s, ends, results, k) == Lifecycle { builds: a1, ..p });
    } else {
        assert forall|v: HubUid|
            has_build(s.builds, v) <==> (exists|j: int| 0 <= j < ends.len() && ends[j] == v) by {
            if ends.contains(v) {
                let j = choose|j: int| 0 <= j < ends.len() && ends[j] == v;
            }
            if exists|j: int| 0 <= j < ends.len() && ends[j] == v {
                let j = choose|j: int| 0 <= j < ends.len() && ends[j] == v;
                assert(ends.contains(v));
            }
        }
    }
}

/// Run-when-done: with a run asked for while the builds in `ends` are
/// outstanding, their ends (in the order of `ends`) start the executables
/// exactly once, at the last end and at no earlier one; the request is
/// then spent, so no later end starts them again.
pub proof fn lemma_run_when_done(s: Lifecycle, ends: Seq<HubUid>, results: Seq<BuildResult>)
    requires
        s.exec_when_done,
        ends.len() > 0,
        ends.no_duplicates(),
        results.len() == ends.len(),
        forall|v: HubUid| has_build(s.builds, v) <==> ends.contains(v),
    ensures
        forall|j: int| 0 <= j < ends.len() - 1 ==> !fires(after_ends(s, ends, results, j as nat), ends[j], results[j]),
        fires(after_ends(s, ends, results, (ends.len() - 1) as nat), ends.last(), results.last()),
        !after_ends(s, ends, results, ends.len()).exec_when_done,
{
    let n = ends.len();
    let km = (n - 1) as nat;
    lemma_ends_prefix(s, ends, results, km);
    let p = after_ends(s, ends, results, km);
    let u = ends[km as int];
    let a1 = cargo_end_builds(p.builds, u, results[km as int]);
    assert(has_build(p.builds, u));
    let i = choose|i: int| 0 <= i < p.builds.len() && p.builds[i].build_uid == Some(u);
    assert(tracks(p.builds, u));
    assert(!any_building(a1)) by {
        if any_building(a1) {
            let w = choose|w: int| 0 <= w < a1.len() && a1[w].build_uid.is_some();
            let v = a1[w].build_uid.unwrap();
            assert(has_build(a1, v));
            lemma_end_clears(p.builds, u, results[km as int], v);
        }
    }
}


/// A freshly allocated identifier is not one the manager is waiting on.
pub proof fn lemma_fresh_uid_untracked(abs: Seq<ActiveBuild>, next: u64)
    requires
        builds_wf(abs, next),
    ensures
        !tracks(abs, HubUid { id: next }),
{
    if tracks(abs, HubUid { id: next }) {
        let i = choose|i: int|
            0 <= i < abs.len() && (abs[i].build_uid == Some(HubUid { id: next }) || abs[i].run_uid == Some(HubUid { id: next }));
        assert(uid_below(abs[i].build_uid, next) && uid_below(abs[i].run_uid, next));
    }
}

/// However much output arrives, the log holds at most its cap and one notice.
pub proof fn lemma_log_stays_bounded(pre: Seq<HubLogItem>, tail: bool, item: HubLogItem, post: Seq<HubLogItem>)
    requires
        pre.len() <= MAX_LOG_ITEMS + 1,
        log_appended(pre, tail, item, post),
    ensures
        post.len() <= MAX_LOG_ITEMS + 1,
{
}

} // verus!
