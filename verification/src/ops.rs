//! The create operations as decisions: from the options and the facts gathered so far,
//! either the next fact to gather, a failure, or the plan (report and actions) to carry out.
use vstd::prelude::*;
use crate::model::Failure;
use crate::report::Report;
use crate::text::opt_text;
use crate::secret::{ChoiceView, PassphraseChoice};

verus! {

/// One step of carrying out an operation, performed in order; the first that fails ends
/// the operation with its failure.
#[derive(Debug)]
pub enum Action {
    /// Create a directory and its missing parents, a `private` one readable by its owner
    /// alone (mode 0700); a failure is reported with code 6 and `prefix` before the error
    /// text.
    CreateDir { path: String, prefix: String, private: bool },
    /// Obtain the passphrase of a new key as `source` chooses it: read and check the passphrase
    /// file, generate one, take the value given, or prompt for it twice on a terminal and
    /// confirm it with `secret::confirm_prompted` (code 4 when there is no terminal or the
    /// entries differ); nothing at all for an unencrypted key. A passphrase read from a file
    /// is written only when `copy_supplied`; any other is written with a trailing newline to
    /// `store` as a new file readable and writable by its owner alone (mode 0600; failure
    /// code 6).
    StorePassphrase { source: PassphraseChoice, store: String, copy_supplied: bool },
    /// Read and check an existing passphrase file; a failure is reported with code 4 and the
    /// reason between `prefix` and `suffix`.
    CheckPassphrase { path: String, prefix: String, suffix: String },
    /// Run OpenSSL with the arguments; a failure is reported as `dispatch::action_failure`
    /// gives it (code 8 when OpenSSL did not start, 10 when it failed) with `prefix` before
    /// the error, after removing the directory `cleanup` where one is given. The file
    /// `restrict`, where one is given, is created by the run and is then made readable and
    /// writable by its owner alone (mode 0600; failure code 6).
    RunOpenssl { args: Vec<String>, prefix: String, cleanup: Option<String>, restrict: Option<String> },
    /// Write a new file with the contents, readable and writable by its owner alone (mode
    /// 0600), first creating its directory when `create_parent`; a failure is reported with
    /// code 6, after removing the directory `cleanup` where one is given.
    WriteFile { path: String, contents: String, create_parent: bool, cleanup: Option<String> },
    /// Replace the contents of an existing file, keeping its mode (failure code 6).
    ReplaceFile { path: String, contents: String },
    /// Read the issued certificate `cert` (failure code 6) and check it with
    /// `certificate::check_issued_sans` against the requested names, `addresses[i]` telling
    /// whether `sans[i]` is an IP address; a mismatch fails as that check says, after
    /// removing the directory `cleanup` where one is given.
    VerifySans { cert: String, sans: Vec<String>, addresses: Vec<bool>, cleanup: Option<String> },
    /// Write the bytes of the `sources` files, concatenated in order, to `issuer_chain`, and
    /// those of `cert` followed by the same bytes to `full_chain`; when `required`, a
    /// failure is reported with code 6 and `cannot write certificate chain: ` before the
    /// error, otherwise it is ignored.
    WriteChain { sources: Vec<String>, cert: String, issuer_chain: String, full_chain: String, required: bool },
    /// Stop with this failure, after removing the directory `cleanup` where one is given.
    Fail { code: u8, message: String, cleanup: Option<String> },
}

/// An action with its texts as sequences of characters.
pub enum ActionView {
    CreateDir { path: Seq<char>, prefix: Seq<char>, private: bool },
    StorePassphrase { source: ChoiceView, store: Seq<char>, copy_supplied: bool },
    CheckPassphrase { path: Seq<char>, prefix: Seq<char>, suffix: Seq<char> },
    RunOpenssl {
        args: Seq<Seq<char>>,
        prefix: Seq<char>,
        cleanup: Option<Seq<char>>,
        restrict: Option<Seq<char>>,
    },
    WriteFile { path: Seq<char>, contents: Seq<char>, create_parent: bool, cleanup: Option<Seq<char>> },
    ReplaceFile { path: Seq<char>, contents: Seq<char> },
    VerifySans { cert: Seq<char>, sans: Seq<Seq<char>>, addresses: Seq<bool>, cleanup: Option<Seq<char>> },
    WriteChain {
        sources: Seq<Seq<char>>,
        cert: Seq<char>,
        issuer_chain: Seq<char>,
        full_chain: Seq<char>,
        required: bool,
    },
    Fail { code: u8, message: Seq<char>, cleanup: Option<Seq<char>> },
}

impl View for Action {
    type V = ActionView;

    open spec fn view(&self) -> ActionView {
        match self {
            Action::CreateDir { path, prefix, private } => ActionView::CreateDir {
                path: path@,
                prefix: prefix@,
                private: *private,
            },
            Action::StorePassphrase { source, store, copy_supplied } =>
                ActionView::StorePassphrase {
                source: source@,
                store: store@,
                copy_supplied: *copy_supplied,
            },
            Action::CheckPassphrase { path, prefix, suffix } => ActionView::CheckPassphrase {
                path: path@,
                prefix: prefix@,
                suffix: suffix@,
            },
            Action::RunOpenssl { args, prefix, cleanup, restrict } => ActionView::RunOpenssl {
                args: args.deep_view(),
                prefix: prefix@,
                cleanup: opt_text(*cleanup),
                restrict: opt_text(*restrict),
            },
            Action::WriteFile { path, contents, create_parent, cleanup } => ActionView::WriteFile {
                path: path@,
                contents: contents@,
                create_parent: *create_parent,
                cleanup: opt_text(*cleanup),
            },
            Action::ReplaceFile { path, contents } => ActionView::ReplaceFile {
                path: path@,
                contents: contents@,
            },
            Action::VerifySans { cert, sans, addresses, cleanup } => ActionView::VerifySans {
                cert: cert@,
                sans: sans.deep_view(),
                addresses: addresses@,
                cleanup: opt_text(*cleanup),
            },
            Action::WriteChain { sources, cert, issuer_chain, full_chain, required } =>
                ActionView::WriteChain {
                sources: sources.deep_view(),
                cert: cert@,
                issuer_chain: issuer_chain@,
                full_chain: full_chain@,
                required: *required,
            },
            Action::Fail { code, message, cleanup } => ActionView::Fail {
                code: *code,
                message: message@,
                cleanup: opt_text(*cleanup),
            },
        }
    }
}

/// The views of a list of actions.
pub open spec fn actions_view(actions: Seq<Action>) -> Seq<ActionView> {
    actions.map_values(|a: Action| a@)
}

/// A report with its texts as sequences of characters (certificates only by presence).
pub struct ReportView {
    pub schema_version: u8,
    pub ok: bool,
    pub code: u8,
    pub error: Option<Seq<char>>,
    pub message: Seq<char>,
    pub dry_run: bool,
    pub paths: Seq<Seq<char>>,
    pub commands: nat,
    pub planned_commands: Seq<Seq<Seq<char>>>,
    pub planned_artifacts: Seq<Seq<char>>,
    pub has_certificates: bool,
}

impl View for Report {
    type V = ReportView;

    open spec fn view(&self) -> ReportView {
        ReportView {
            schema_version: self.schema_version,
            ok: self.ok,
            code: self.code,
            error: opt_text(self.error),
            message: self.message@,
            dry_run: self.dry_run,
            paths: self.paths.deep_view(),
            commands: self.commands@.len(),
            planned_commands: self.planned_commands.deep_view(),
            planned_artifacts: self.planned_artifacts.deep_view(),
            has_certificates: self.certificates is Some,
        }
    }
}

/// A successful report with the given message, paths and plans.
pub open spec fn ok_report(
    message: Seq<char>,
    dry_run: bool,
    paths: Seq<Seq<char>>,
    planned_commands: Seq<Seq<Seq<char>>>,
    planned_artifacts: Seq<Seq<char>>,
) -> ReportView {
    ReportView {
        schema_version: 1,
        ok: true,
        code: 0,
        error: None,
        message,
        dry_run,
        paths,
        commands: 0,
        planned_commands,
        planned_artifacts,
        has_certificates: false,
    }
}

/// What to carry out: the report to give once every action has succeeded, and the actions
/// (none for a dry run).
#[derive(Debug)]
pub struct Plan {
    pub report: Report,
    pub actions: Vec<Action>,
}

/// A plan with its texts as sequences of characters.
pub struct PlanView {
    pub report: ReportView,
    pub actions: Seq<ActionView>,
}

impl View for Plan {
    type V = PlanView;

    open spec fn view(&self) -> PlanView {
        PlanView { report: self.report@, actions: actions_view(self.actions@) }
    }
}

/// A fact about the PKI directory that a decision needs before it can go on.
#[derive(Debug)]
pub enum Need {
    /// Whether each of these paths exists.
    NamesInUse(Vec<String>),
    /// Whether each of these candidate issuer certificates is a file (absent candidates are not).
    IssuerFiles(Vec<Option<String>>),
    /// The bytes of this issuer certificate.
    IssuerCertificate(String),
    /// Whether this issuer private key is a file.
    IssuerKey(String),
    /// The passphrase read and checked from this issuer passphrase file.
    IssuerPassphrase(String),
    /// The passphrase read and checked from this leaf passphrase file.
    LeafPassphrase(String),
    /// Whether each of these subject alternative names is an IP address.
    SanAddresses(Vec<String>),
    /// Whether this target path exists.
    TargetExists(String),
    /// The contents of the issuer CA's serial file at this path.
    IssuerSerial(String),
    /// The current time, in Unix seconds.
    CurrentTime,
}

/// A needed fact with its texts as sequences of characters.
pub enum NeedView {
    NamesInUse(Seq<Seq<char>>),
    IssuerFiles(Seq<Option<Seq<char>>>),
    IssuerCertificate(Seq<char>),
    IssuerKey(Seq<char>),
    IssuerPassphrase(Seq<char>),
    LeafPassphrase(Seq<char>),
    SanAddresses(Seq<Seq<char>>),
    TargetExists(Seq<char>),
    IssuerSerial(Seq<char>),
    CurrentTime,
}

impl View for Need {
    type V = NeedView;

    open spec fn view(&self) -> NeedView {
        match self {
            Need::NamesInUse(p) => NeedView::NamesInUse(p.deep_view()),
            Need::IssuerFiles(p) => NeedView::IssuerFiles(
                p@.map_values(|c: Option<String>| opt_text(c)),
            ),
            Need::IssuerCertificate(p) => NeedView::IssuerCertificate(p@),
            Need::IssuerKey(p) => NeedView::IssuerKey(p@),
            Need::IssuerPassphrase(p) => NeedView::IssuerPassphrase(p@),
            Need::LeafPassphrase(p) => NeedView::LeafPassphrase(p@),
            Need::SanAddresses(p) => NeedView::SanAddresses(p.deep_view()),
            Need::TargetExists(p) => NeedView::TargetExists(p@),
            Need::IssuerSerial(p) => NeedView::IssuerSerial(p@),
            Need::CurrentTime => NeedView::CurrentTime,
        }
    }
}

/// The facts gathered so far; each is absent until asked for.
#[derive(Debug)]
pub struct Facts {
    pub names_in_use: Option<Vec<bool>>,
    pub issuer_files: Option<Vec<bool>>,
    pub issuer_certificate: Option<Result<Vec<u8>, String>>,
    pub issuer_key: Option<bool>,
    pub issuer_passphrase: Option<Result<String, Failure>>,
    pub leaf_passphrase: Option<Result<String, Failure>>,
    pub san_addresses: Option<Vec<bool>>,
    pub target_exists: Option<bool>,
    pub issuer_serial: Option<Result<String, String>>,
    pub now: Option<i64>,
}

/// The result of a passphrase read, as text.
pub open spec fn read_view(r: Result<String, Failure>) -> Result<Seq<char>, (u8, Seq<char>)> {
    match r {
        Ok(v) => Ok(v@),
        Err(e) => Err((e.0, e.1@)),
    }
}

/// The facts with their texts as sequences of characters.
pub struct FactsView {
    pub names_in_use: Option<Seq<bool>>,
    pub issuer_files: Option<Seq<bool>>,
    pub issuer_certificate: Option<Result<Seq<u8>, Seq<char>>>,
    pub issuer_key: Option<bool>,
    pub issuer_passphrase: Option<Result<Seq<char>, (u8, Seq<char>)>>,
    pub leaf_passphrase: Option<Result<Seq<char>, (u8, Seq<char>)>>,
    pub san_addresses: Option<Seq<bool>>,
    pub target_exists: Option<bool>,
    pub issuer_serial: Option<Result<Seq<char>, Seq<char>>>,
    pub now: Option<int>,
}

impl View for Facts {
    type V = FactsView;

    open spec fn view(&self) -> FactsView {
        FactsView {
            names_in_use: match self.names_in_use {
                Some(v) => Some(v@),
                None => None,
            },
            issuer_files: match self.issuer_files {
                Some(v) => Some(v@),
                None => None,
            },
            issuer_certificate: match self.issuer_certificate {
                Some(Ok(b)) => Some(Ok(b@)),
                Some(Err(e)) => Some(Err(e@)),
                None => None,
            },
            issuer_key: self.issuer_key,
            issuer_passphrase: match self.issuer_passphrase {
                Some(r) => Some(read_view(r)),
                None => None,
            },
            leaf_passphrase: match self.leaf_passphrase {
                Some(r) => Some(read_view(r)),
                None => None,
            },
            san_addresses: match self.san_addresses {
                Some(v) => Some(v@),
                None => None,
            },
            target_exists: self.target_exists,
            issuer_serial: match self.issuer_serial {
                Some(Ok(t)) => Some(Ok(t@)),
                Some(Err(e)) => Some(Err(e@)),
                None => None,
            },
            now: match self.now {
                Some(t) => Some(t as int),
                None => None,
            },
        }
    }
}

/// Where a decision stands: a fact is needed, or it is done.
#[derive(Debug)]
pub enum Step {
    Need(Need),
    Done(Result<Plan, Failure>),
}

/// A step with its texts as sequences of characters.
pub enum StepView {
    Need(NeedView),
    Fail(u8, Seq<char>),
    Plan(PlanView),
}

impl View for Step {
    type V = StepView;

    open spec fn view(&self) -> StepView {
        match self {
            Step::Need(n) => StepView::Need(n@),
            Step::Done(Ok(p)) => StepView::Plan(p@),
            Step::Done(Err(e)) => StepView::Fail(e.0, e.1@),
        }
    }
}

} // verus!
