use vstd::prelude::*;
use crate::uid::HubUid;

verus! {

/// A build configuration: which builder builds which package of which
/// workspace, with which configuration.
pub struct BuildTarget {
    pub builder: String,
    pub workspace: String,
    pub package: String,
    pub config: String,
}

impl BuildTarget {
    pub fn duplicate(&self) -> (r: BuildTarget)
        ensures
            r == *self,
    {
        BuildTarget {
            builder: self.builder.clone(),
            workspace: self.workspace.clone(),
            package: self.package.clone(),
            config: self.config.clone(),
        }
    }
}

/// What a finished build produced. Only an executable is ever run.
pub enum BuildResult {
    Executable { path: String },
    Wasm { path: String },
    Library { path: String },
    NoOutput,
    Error,
}

impl BuildResult {
    pub fn duplicate(&self) -> (r: BuildResult)
        ensures
            r == *self,
    {
        match self {
            BuildResult::Executable { path } => BuildResult::Executable { path: path.clone() },
            BuildResult::Wasm { path } => BuildResult::Wasm { path: path.clone() },
            BuildResult::Library { path } => BuildResult::Library { path: path.clone() },
            BuildResult::NoOutput => BuildResult::NoOutput,
            BuildResult::Error => BuildResult::Error,
        }
    }
}

/// A diagnostic tied to a place in a source file.
pub struct LocMessage {
    pub path: String,
    pub line: usize,
    pub column: usize,
    pub body: String,
    /// Byte range `(head, tail)` in the file, where known.
    pub range: Option<(usize, usize)>,
    pub rendered: Option<String>,
    pub explanation: Option<String>,
}

fn duplicate_opt(s: &Option<String>) -> (r: Option<String>)
    ensures
        r == *s,
{
    match s {
        Some(t) => Some(t.clone()),
        None => None,
    }
}

impl LocMessage {
    pub fn duplicate(&self) -> (r: LocMessage)
        ensures
            r == *self,
    {
        LocMessage {
            path: self.path.clone(),
            line: self.line,
            column: self.column,
            body: self.body.clone(),
            range: self.range,
            rendered: duplicate_opt(&self.rendered),
            explanation: duplicate_opt(&self.explanation),
        }
    }
}

/// One entry of the build console.
pub enum HubLogItem {
    LocPanic(LocMessage),
    LocError(LocMessage),
    LocWarning(LocMessage),
    LocMessage(LocMessage),
    Error(String),
    Warning(String),
    Message(String),
}

impl HubLogItem {
    pub fn duplicate(&self) -> (r: HubLogItem)
        ensures
            r == *self,
    {
        match self {
            HubLogItem::LocPanic(m) => HubLogItem::LocPanic(m.duplicate()),
            HubLogItem::LocError(m) => HubLogItem::LocError(m.duplicate()),
            HubLogItem::LocWarning(m) => HubLogItem::LocWarning(m.duplicate()),
            HubLogItem::LocMessage(m) => HubLogItem::LocMessage(m.duplicate()),
            HubLogItem::Error(s) => HubLogItem::Error(s.clone()),
            HubLogItem::Warning(s) => HubLogItem::Warning(s.clone()),
            HubLogItem::Message(s) => HubLogItem::Message(s.clone()),
        }
    }

    pub open spec fn loc_message_spec(&self) -> Option<LocMessage> {
        match self {
            HubLogItem::LocPanic(m) => Some(*m),
            HubLogItem::LocError(m) => Some(*m),
            HubLogItem::LocWarning(m) => Some(*m),
            HubLogItem::LocMessage(m) => Some(*m),
            _ => None,
        }
    }

    /// The source location the item is tied to, if any.
    pub fn get_loc_message(&self) -> (r: Option<&LocMessage>)
        ensures
            r.is_some() == self.loc_message_spec().is_some(),
            r.is_some() ==> *r.unwrap() == self.loc_message_spec().unwrap(),
    {
        match self {
            HubLogItem::LocPanic(m) => Some(m),
            HubLogItem::LocError(m) => Some(m),
            HubLogItem::LocWarning(m) => Some(m),
            HubLogItem::LocMessage(m) => Some(m),
            _ => None,
        }
    }
}

/// Where a request goes.
#[derive(PartialEq, Eq)]
pub enum HubMsgTo {
    Builder(String),
}

/// The messages that travel between the build manager and the builders.
pub enum HubMsg {
    ListBuildersResponse { builders: Vec<String> },
    Build { uid: HubUid, workspace: String, package: String, config: String },
    BuildKill { uid: HubUid },
    CargoBegin { uid: HubUid },
    LogItem { uid: HubUid, item: HubLogItem },
    CargoArtifact { uid: HubUid, package_id: String, fresh: bool },
    BuildFailure { uid: HubUid },
    CargoEnd { uid: HubUid, build_result: BuildResult },
    ProgramRun { uid: HubUid, path: String, args: Vec<String> },
    ProgramKill { uid: HubUid },
    ProgramEnd { uid: HubUid },
}

/// `HubMsg` with its lists seen as sequences.
pub enum HubMsgView {
    ListBuildersResponse { builders: Seq<String> },
    Build { uid: HubUid, workspace: String, package: String, config: String },
    BuildKill { uid: HubUid },
    CargoBegin { uid: HubUid },
    LogItem { uid: HubUid, item: HubLogItem },
    CargoArtifact { uid: HubUid, package_id: String, fresh: bool },
    BuildFailure { uid: HubUid },
    CargoEnd { uid: HubUid, build_result: BuildResult },
    ProgramRun { uid: HubUid, path: String, args: Seq<String> },
    ProgramKill { uid: HubUid },
    ProgramEnd { uid: HubUid },
}

impl View for HubMsg {
    type V = HubMsgView;

    open spec fn view(&self) -> HubMsgView {
        match self {
            HubMsg::ListBuildersResponse { builders } => HubMsgView::ListBuildersResponse { builders: builders@ },
            HubMsg::Build { uid, workspace, package, config } => HubMsgView::Build {
                uid: *uid,
                workspace: *workspace,
                package: *package,
                config: *config,
            },
            HubMsg::BuildKill { uid } => HubMsgView::BuildKill { uid: *uid },
            HubMsg::CargoBegin { uid } => HubMsgView::CargoBegin { uid: *uid },
            HubMsg::LogItem { uid, item } => HubMsgView::LogItem { uid: *uid, item: *item },
            HubMsg::CargoArtifact { uid, package_id, fresh } => HubMsgView::CargoArtifact {
                uid: *uid,
                package_id: *package_id,
                fresh: *fresh,
            },
            HubMsg::BuildFailure { uid } => HubMsgView::BuildFailure { uid: *uid },
            HubMsg::CargoEnd { uid, build_result } => HubMsgView::CargoEnd { uid: *uid, build_result: *build_result },
            HubMsg::ProgramRun { uid, path, args } => HubMsgView::ProgramRun { uid: *uid, path: *path, args: args@ },
            HubMsg::ProgramKill { uid } => HubMsgView::ProgramKill { uid: *uid },
            HubMsg::ProgramEnd { uid } => HubMsgView::ProgramEnd { uid: *uid },
        }
    }
}

/// A message addressed to a builder.
pub struct ToHubMsg {
    pub to: HubMsgTo,
    pub msg: HubMsg,
}

pub struct ToHubMsgView {
    pub to: HubMsgTo,
    pub msg: HubMsgView,
}

impl View for ToHubMsg {
    type V = ToHubMsgView;

    open spec fn view(&self) -> ToHubMsgView {
        ToHubMsgView { to: self.to, msg: self.msg@ }
    }
}

/// The views of a list of sent messages.
pub open spec fn sent_view(s: Seq<ToHubMsg>) -> Seq<ToHubMsgView> {
    s.map_values(|m: ToHubMsg| m@)
}

/// Notifications the build manager raises for whoever displays its state.
#[derive(Clone, Copy, Debug, PartialEq, Eq, Structural)]
pub enum BuildStatus {
    NewLogItem,
    NewArtifact,
    CargoEnd,
    ProgramEnd,
}

/// What the build manager hands to the outside world: requests for the
/// builders and notifications.
pub struct Outbox {
    pub sends: Vec<ToHubMsg>,
    pub signals: Vec<BuildStatus>,
}

impl Outbox {
    pub fn new() -> (r: Outbox)
        ensures
            r.sends@.len() == 0,
            r.signals@.len() == 0,
    {
        Outbox { sends: Vec::new(), signals: Vec::new() }
    }
}

} // verus!
