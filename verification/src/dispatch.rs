//! The command-line operations and what each asks for first.
use vstd::prelude::*;
use crate::model::{CertificateDuration, DurationUnit, Failure, KeyUsage, Profile};
use crate::text::{owned, trim, trim_text};
use crate::subject::SubjectArgs;
use crate::plans::RootArgs;
use crate::create::{CertArgs, IntermediateArgs};
use crate::report::{CommandReport, Report, success};
use crate::ops::{ok_report};

verus! {

/// The options of `create-ca`: a root CA without `parent`, an intermediate CA with one.
#[derive(Debug)]
pub struct CreateCaArgs {
    pub subject: SubjectArgs,
    pub name: String,
    pub profile: Option<Profile>,
    pub parent: Option<String>,
    pub days: Option<CertificateDuration>,
    pub pathlen: Option<u32>,
    pub key_usage: Vec<KeyUsage>,
    pub passphrase: Option<String>,
    pub passphrase_file: Option<String>,
    pub parent_passphrase_file: Option<String>,
    pub do_it: bool,
}

/// An operation selected on the command line.
#[derive(Debug)]
pub enum Operation {
    Check,
    CreateCa(CreateCaArgs),
    CreateCert(CertArgs),
    List,
}

/// The work an operation comes down to once the preflight checks have passed.
#[derive(Debug)]
pub enum Task {
    /// Nothing more to do: report this.
    Report(Report),
    CreateRoot(RootArgs),
    CreateIntermediate(IntermediateArgs),
    CreateCertificate(CertArgs),
    List,
}

/// Where the preflight of an operation stands.
#[derive(Debug)]
pub enum ExecuteStep {
    /// Run `openssl version` and come back with its outcome.
    VerifyOpenssl(Operation),
    /// Run OpenSSL with `capability_args` and come back with its outcome.
    VerifyEd25519(Operation),
    Fail(Failure),
    Perform(Task),
}

/// Why an OpenSSL run failed: the process did not start, or it ran and failed.
#[derive(Debug)]
pub enum RunError {
    Launch(String),
    Failed(String),
}

/// The text of a run failure.
pub open spec fn run_error_text(e: RunError) -> Seq<char> {
    match e {
        RunError::Launch(t) => t@,
        RunError::Failed(t) => t@,
    }
}

/// The exit code of a run failure: 8 when OpenSSL could not be launched, 10 when it failed.
pub open spec fn run_error_code(e: RunError) -> u8 {
    match e {
        RunError::Launch(_) => 8,
        RunError::Failed(_) => 10,
    }
}

/// The default lifetime of an intermediate CA: two years.
pub open spec fn intermediate_default_days() -> CertificateDuration {
    CertificateDuration { amount: 2, unit: DurationUnit::Years }
}

/// The default lifetime of a root CA: five years.
pub open spec fn root_default_days() -> CertificateDuration {
    CertificateDuration { amount: 5, unit: DurationUnit::Years }
}

/// A parent passphrase file given to `create-ca` without a parent.
pub open spec fn orphan_passphrase(command: Operation) -> bool {
    command matches Operation::CreateCa(a) && a.parent is None && a.parent_passphrase_file is Some
}

/// The preflight of an operation: the PKI directory must exist; a parent passphrase file
/// needs a parent; OpenSSL must run (its outcome is asked for, then given as `openssl`);
/// then `check` also asks for the outcome of an Ed25519 key generation (`capability`) and
/// reports success only when it worked (code 8 when OpenSSL did not start, 9 when it
/// failed), `create-ca` becomes a root CA (a profile is required)
/// or an intermediate CA (with default lifetimes of 5 and 2 years), and the other
/// operations go on as they are.
pub fn execute(
    dir_is_dir: bool,
    command: Operation,
    openssl: Option<Result<(), String>>,
    capability: Option<Result<(), RunError>>,
) -> (r: ExecuteStep)
    ensures
        !dir_is_dir ==> (r matches ExecuteStep::Fail(e) && e.0 == 3 && e.1@ == "--dir must be an existing directory"@),
        dir_is_dir && orphan_passphrase(command)
            ==> (r matches ExecuteStep::Fail(e) && e.0 == 4 && e.1@ == "--parent-passphrase-file is only valid with --parent"@),
        dir_is_dir && !orphan_passphrase(command) ==> match openssl {
            None => r == ExecuteStep::VerifyOpenssl(command),
            Some(Err(detail)) => r matches ExecuteStep::Fail(e) && e.0 == 8 && e.1@ == detail@,
            Some(Ok(())) => match command {
                Operation::Check => match capability {
                    None => r == ExecuteStep::VerifyEd25519(Operation::Check),
                    Some(Err(RunError::Launch(detail))) => r matches ExecuteStep::Fail(e) && e.0 == 8
                        && e.1@ == detail@,
                    Some(Err(RunError::Failed(detail))) => r matches ExecuteStep::Fail(e) && e.0 == 9
                        && e.1@ == "OpenSSL does not support the Ed25519 operations this tool needs: "@ + detail@,
                    Some(Ok(())) => r matches ExecuteStep::Perform(Task::Report(report))
                        && report@ == ok_report("OpenSSL verified"@, true, Seq::empty(), Seq::empty(), Seq::empty()),
                },
                Operation::List => r == ExecuteStep::Perform(Task::List),
                Operation::CreateCert(a) => r == ExecuteStep::Perform(Task::CreateCertificate(a)),
                Operation::CreateCa(a) => match a.parent {
                    Some(parent) => r == ExecuteStep::Perform(Task::CreateIntermediate(IntermediateArgs {
                        subject: a.subject,
                        profile: a.profile,
                        name: a.name,
                        parent,
                        days: match a.days { Some(d) => d, None => intermediate_default_days() },
                        pathlen: a.pathlen,
                        key_usage: a.key_usage,
                        passphrase: a.passphrase,
                        passphrase_file: a.passphrase_file,
                        issuer_passphrase_file: a.parent_passphrase_file,
                        do_it: a.do_it,
                    })),
                    None => match a.profile {
                        None => r matches ExecuteStep::Fail(e) && e.0 == 4 && e.1@ == "--profile is required when --parent is omitted"@,
                        Some(profile) => r == ExecuteStep::Perform(Task::CreateRoot(RootArgs {
                            subject: a.subject,
                            name: a.name,
                            profile,
                            days: match a.days { Some(d) => d, None => root_default_days() },
                            pathlen: a.pathlen,
                            key_usage: a.key_usage,
                            passphrase: a.passphrase,
                            passphrase_file: a.passphrase_file,
                            do_it: a.do_it,
                        })),
                    },
                },
            },
        },
{
    if !dir_is_dir {
        return ExecuteStep::Fail((3, owned("--dir must be an existing directory")));
    }
    let orphan_passphrase = match &command {
        Operation::CreateCa(args) => args.parent.is_none() && args.parent_passphrase_file.is_some(),
        _ => false,
    };
    if orphan_passphrase {
        return ExecuteStep::Fail((4, owned("--parent-passphrase-file is only valid with --parent")));
    }
    match openssl {
        None => {
            return ExecuteStep::VerifyOpenssl(command);
        },
        Some(Err(detail)) => {
            return ExecuteStep::Fail((8, detail));
        },
        Some(Ok(())) => {},
    }
    match command {
        Operation::Check => {
            match capability {
                None => {
                    return ExecuteStep::VerifyEd25519(Operation::Check);
                },
                Some(Err(RunError::Launch(detail))) => {
                    return ExecuteStep::Fail((8, detail));
                },
                Some(Err(RunError::Failed(detail))) => {
                    let mut message = owned("OpenSSL does not support the Ed25519 operations this tool needs: ");
                    message.append(detail.as_str());
                    return ExecuteStep::Fail((9, message));
                },
                Some(Ok(())) => {},
            }
            let report = success("OpenSSL verified", true);
            assert(report.paths.deep_view() =~= Seq::<Seq<char>>::empty());
            assert(report.planned_commands.deep_view() =~= Seq::<Seq<Seq<char>>>::empty());
            assert(report.planned_artifacts.deep_view() =~= Seq::<Seq<char>>::empty());
            ExecuteStep::Perform(Task::Report(report))
        },
        Operation::List => ExecuteStep::Perform(Task::List),
        Operation::CreateCert(args) => ExecuteStep::Perform(Task::CreateCertificate(args)),
        Operation::CreateCa(args) => {
            let CreateCaArgs {
                subject,
                name,
                profile,
                parent,
                days,
                pathlen,
                key_usage,
                passphrase,
                passphrase_file,
                parent_passphrase_file,
                do_it,
            } = args;
            match parent {
                Some(parent) => ExecuteStep::Perform(
                    Task::CreateIntermediate(IntermediateArgs {
                        subject,
                        profile,
                        name,
                        parent,
                        days: match days {
                            Some(d) => d,
                            None => CertificateDuration { amount: 2, unit: DurationUnit::Years },
                        },
                        pathlen,
                        key_usage,
                        passphrase,
                        passphrase_file,
                        issuer_passphrase_file: parent_passphrase_file,
                        do_it,
                    }),
                ),
                None => match profile {
                    None => ExecuteStep::Fail(
                        (4, owned("--profile is required when --parent is omitted")),
                    ),
                    Some(profile) => ExecuteStep::Perform(
                        Task::CreateRoot(RootArgs {
                            subject,
                            name,
                            profile,
                            days: match days {
                                Some(d) => d,
                                None => CertificateDuration { amount: 5, unit: DurationUnit::Years },
                            },
                            pathlen,
                            key_usage,
                            passphrase,
                            passphrase_file,
                            do_it,
                        }),
                    ),
                },
            }
        },
    }
}

/// The OpenSSL executable and the runs recorded so far.
#[derive(Debug)]
pub struct OpenSsl {
    pub binary: String,
    pub commands: Vec<CommandReport>,
}

impl OpenSsl {
    /// Records a finished OpenSSL run with its arguments (after the executable), exit
    /// status and output, and tells whether it succeeded; a failure carries the trimmed
    /// standard error.
    pub fn run(
        &mut self,
        args: &Vec<String>,
        success: bool,
        code: Option<i32>,
        stdout: String,
        stderr: String,
        stdout_bytes: usize,
        stderr_bytes: usize,
    ) -> (r: Result<(), String>)
        ensures
            final(self).binary == old(self).binary,
            final(self).commands@.len() == old(self).commands@.len() + 1,
            forall|i: int| 0 <= i < old(self).commands@.len() ==> final(self).commands@[i] == old(self).commands@[i],
            ({
                let report = final(self).commands@[old(self).commands@.len() as int];
                &&& report.argv.deep_view() == seq![old(self).binary@] + args.deep_view()
                &&& report.success == success
                &&& report.code == code
                &&& report.stdout@ == stdout@
                &&& report.stderr@ == stderr@
                &&& report.stdout_bytes == stdout_bytes
                &&& report.stderr_bytes == stderr_bytes
            }),
            success ==> r is Ok,
            !success ==> (r matches Err(e) && e@ == "OpenSSL failed: "@ + trim(stderr@)),
    {
        let mut argv = vec![self.binary.clone()];
        crate::plans::extend_strings(&mut argv, args);
        assert(argv.deep_view() =~= seq![self.binary@] + args.deep_view());
        let error = trim_text(stderr.as_str());
        let report = CommandReport {
            argv,
            success,
            code,
            stdout,
            stderr,
            stdout_bytes,
            stderr_bytes,
        };
        self.commands.push(report);
        if success {
            Ok(())
        } else {
            let mut message = owned("OpenSSL failed: ");
            message.append(error.as_str());
            Err(message)
        }
    }
}

/// The error of an OpenSSL executable that did not start.
pub fn launch_failure(detail: &str) -> (r: String)
    ensures
        r@ == "cannot launch OpenSSL: "@ + detail@,
{
    let mut r = owned("cannot launch OpenSSL: ");
    r.append(detail);
    r
}

/// The failure of an OpenSSL run: code 8 when it could not be launched, 10 when it failed,
/// with the run's error.
pub fn run_to_file(outcome: Result<(), RunError>) -> (r: Result<(), Failure>)
    ensures
        match outcome {
            Ok(()) => r is Ok,
            Err(e) => r matches Err(f) && f.0 == run_error_code(e) && f.1@ == run_error_text(e),
        },
{
    match outcome {
        Ok(()) => Ok(()),
        Err(RunError::Launch(error)) => Err((8, error)),
        Err(RunError::Failed(error)) => Err((10, error)),
    }
}

/// The failure of a planned OpenSSL run: its code as `run_to_file` gives it, and `prefix`
/// before the run's error.
pub fn action_failure(prefix: &str, error: RunError) -> (r: Failure)
    ensures
        r.0 == run_error_code(error),
        r.1@ == prefix@ + run_error_text(error),
{
    match error {
        RunError::Launch(e) => {
            let mut m = owned(prefix);
            m.append(e.as_str());
            (8, m)
        },
        RunError::Failed(e) => {
            let mut m = owned(prefix);
            m.append(e.as_str());
            (10, m)
        },
    }
}

/// The arguments that check OpenSSL's Ed25519 support: generate a throwaway Ed25519 key to
/// standard output.
pub fn capability_args() -> (r: Vec<String>)
    ensures
        r.deep_view() == seq!["genpkey"@, "-algorithm"@, "ED25519"@],
{
    let r = vec![owned("genpkey"), owned("-algorithm"), owned("ED25519")];
    assert(r.deep_view() =~= seq!["genpkey"@, "-algorithm"@, "ED25519"@]);
    r
}

/// The arguments that check OpenSSL's x509 support before a listing.
pub fn x509_support_args() -> (r: Vec<String>)
    ensures
        r.deep_view() == seq!["x509"@, "-help"@],
{
    let r = vec![owned("x509"), owned("-help")];
    assert(r.deep_view() =~= seq!["x509"@, "-help"@]);
    r
}

/// A filesystem failure: code 6 with the error text.
pub fn fs_error(error: String) -> (r: Failure)
    ensures
        r.0 == 6,
        r.1@ == error@,
{
    (6, error)
}

/// The arguments that inspect one certificate in a verbose listing.
pub open spec fn inspection_argv(path: Seq<char>) -> Seq<Seq<char>> {
    seq![
        "x509"@,
        "-in"@,
        path,
        "-noout"@,
        "-subject"@,
        "-issuer"@,
        "-serial"@,
        "-dates"@,
        "-fingerprint"@,
        "-pubkey"@,
    ]
}

/// The arguments that inspect one certificate in a verbose listing.
pub fn inspection_args(path: &str) -> (r: Vec<String>)
    ensures
        r.deep_view() == inspection_argv(path@),
{
    let r = vec![
        owned("x509"),
        owned("-in"),
        owned(path),
        owned("-noout"),
        owned("-subject"),
        owned("-issuer"),
        owned("-serial"),
        owned("-dates"),
        owned("-fingerprint"),
        owned("-pubkey"),
    ];
    assert(r.deep_view() =~= inspection_argv(path@));
    r
}

/// The OpenSSL runs of a listing of the certificate files `files` (in the order they are
/// visited): in verbose mode one inspection of each, in that order; otherwise one check
/// of x509 support.
pub fn listing_runs(files: &Vec<String>, verbose: bool) -> (r: Vec<Vec<String>>)
    ensures
        verbose ==> r.deep_view() == files.deep_view().map_values(|p: Seq<char>| inspection_argv(p)),
        !verbose ==> r.deep_view() == seq![seq!["x509"@, "-help"@]],
{
    let mut r: Vec<Vec<String>> = Vec::new();
    if !verbose {
        r.push(x509_support_args());
        assert(r.deep_view() =~= seq![seq!["x509"@, "-help"@]]);
        return r;
    }
    let mut i: usize = 0;
    while i < files.len()
        invariant
            i <= files@.len(),
            r.deep_view() == files.deep_view().take(i as int).map_values(|p: Seq<char>| inspection_argv(p)),
        decreases files.len() - i,
    {
        let ghost before = r.deep_view();
        r.push(inspection_args(files[i].as_str()));
        assert(r.deep_view() =~= before.push(inspection_argv(files.deep_view()[i as int])));
        assert(files.deep_view().take(i + 1).map_values(|p: Seq<char>| inspection_argv(p)) =~= files.deep_view().take(
            i as int,
        ).map_values(|p: Seq<char>| inspection_argv(p)).push(inspection_argv(files.deep_view()[i as int])));
        i = i + 1;
    }
    assert(files.deep_view().take(i as int) =~= files.deep_view());
    r
}

} // verus!
