//! Creating root CAs, intermediate CAs and leaf certificates, decided step by step.
use vstd::prelude::*;
use crate::model::{Failure, Profile, unit_days, profile_name};
use crate::text::{decimal, decimal_string, opt_text, owned, blank, chars_of, string_of, starts_with, text_starts_with};
use crate::model::{parse_u32, parse_amount};
use crate::secret::trim_line_ends;
use crate::subject::{SubjectArgs, SubjectView, subject_complete, country_ok, validate_subject, dn_text};
use crate::rules::{valid_name, validate_name, usages_ok_for_ca, usages_ok_for_leaf, validate_key_usages};
use crate::model::{normalized_days, days_range_message};
use crate::layout::{any_true, ca_dir, ca_directory, ca_name_paths, ensure_unique_ca_name, join_path, name_clash_paths, path_below, path_join, relative_path, resolution, resolve_issuer, issuer_candidates, selector_path, ResolvedIssuer, extension_path, intermediate_extension_path, default_passphrase_path, parent_default_passphrase, ca_home, ca_home_of};
use crate::model::{KeyUsage, CertificateDuration, lemma_profile_name_injective, all_profiles};
use crate::certificate::{pem_block, x509_subject, subject_from, read_subject, pem_not_after, not_after_of, timestamp_text, format_timestamp, pem_path_len, path_len_of};
use crate::subject::{inherited, inherited_subject};
use crate::plans::{csr_args, csr_command, sign_args, sign_command, intermediate_command_plan, intermediate_artifact_plan, intermediate_extension, intermediate_extension_text, certificate_command_plan, certificate_artifact_plan, leaf_extension, leaf_extension_text, extend_strings};
use crate::layout::{leaf_dir, leaf_directory};
use crate::rules::{sorted_set, sorted_unique, lemma_sorted_set, san_error, check_sans};
use crate::plans::{RootArgs, generate_key, key_args, root_artifact_plan, root_certificate_args, root_certificate_command, root_command_plan, root_extension, root_extension_text, with_program, optional_artifact, artifact, file_source, opt_str, shown_source};
use crate::report::success_with_path;
use crate::ops::{Action, ActionView, Facts, FactsView, Need, NeedView, Plan, PlanView, Step, StepView, ok_report, actions_view};
use crate::subject::clone_opt;
use crate::secret::{
    choice_of, choice_error, encrypts, writes_new_passphrase, passphrase_choice, check_passphrase_options,
    ChoiceView, PassphraseChoice,
};

verus! {

/// A failure step.
pub open spec fn failed(code: u8, message: Seq<char>) -> StepView {
    StepView::Fail(code, message)
}

fn fail_step(code: u8, message: String) -> (r: Step)
    ensures
        r@ == failed(code, message@),
{
    Step::Done(Err((code, message)))
}

/// The action that generates a key, encrypted (for RSA) under the passphrase in
/// `passphrase_file`, where there is one.
pub open spec fn key_action(
    profile: Profile,
    key: Seq<char>,
    passphrase_file: Option<Seq<char>>,
    prefix: Seq<char>,
    cleanup: Option<Seq<char>>,
) -> ActionView {
    ActionView::RunOpenssl {
        args: key_args(profile, key, file_source(passphrase_file)),
        prefix,
        cleanup,
        restrict: Some(key),
    }
}

fn key_step(profile: Profile, key: &str, passphrase_file: Option<&str>, prefix: &str, cleanup: &Option<String>) -> (r: Action)
    ensures
        r@ == key_action(profile, key@, opt_str(passphrase_file), prefix@, opt_text(*cleanup)),
{
    Action::RunOpenssl {
        args: generate_key(profile, key, passphrase_file),
        prefix: owned(prefix),
        cleanup: clone_opt(cleanup),
        restrict: Some(owned(key)),
    }
}

fn dir_action(target: &str, part: &str, prefix: &str, private: bool) -> (r: Action)
    ensures
        r@ == (ActionView::CreateDir { path: path_join(target@, part@), prefix: prefix@, private }),
{
    Action::CreateDir { path: join_path(target, part), prefix: owned(prefix), private }
}

fn write_action(target: &str, part: &str, contents: &str) -> (r: Action)
    ensures
        r@ == (ActionView::WriteFile {
            path: path_join(target@, part@),
            contents: contents@,
            create_parent: false,
            cleanup: None,
        }),
{
    Action::WriteFile {
        path: join_path(target, part),
        contents: owned(contents),
        create_parent: false,
        cleanup: None,
    }
}

/// The CA that signs a new certificate: its certificate and key, the serial number to use,
/// its serial file and what that file holds next, and the files whose bytes make up the
/// chain above the new certificate.
#[derive(Debug)]
pub struct Signer {
    pub cert: String,
    pub key: String,
    pub serial: String,
    pub serial_file: String,
    pub next: String,
    pub chain: Vec<String>,
}

/// A signer with its texts as sequences of characters.
pub struct SignerView {
    pub cert: Seq<char>,
    pub key: Seq<char>,
    pub serial: Seq<char>,
    pub serial_file: Seq<char>,
    pub next: Seq<char>,
    pub chain: Seq<Seq<char>>,
}

impl View for Signer {
    type V = SignerView;

    open spec fn view(&self) -> SignerView {
        SignerView {
            cert: self.cert@,
            key: self.key@,
            serial: self.serial@,
            serial_file: self.serial_file@,
            next: self.next@,
            chain: self.chain.deep_view(),
        }
    }
}

/// The signer for the CA certificate `issuer` in CA directory `home`, named by `selector`:
/// its key is `private/ca.key.pem` and its serial file `serial` there. The chain above a
/// certificate it signs is the issuer's certificate followed by the issuer's own chain,
/// except that a root CA's certificate is left out of chains.
pub open spec fn signer(
    issuer: Seq<char>,
    home: Seq<char>,
    selector: Seq<char>,
    serial: Seq<char>,
    next: Seq<char>,
) -> SignerView {
    SignerView {
        cert: issuer,
        key: path_join(home, "private/ca.key.pem"@),
        serial,
        serial_file: path_join(home, "serial"@),
        next,
        chain: if starts_with(selector, "intermediate:"@) {
            seq![issuer, path_join(home, "chain/issuer-chain.pem"@)]
        } else {
            Seq::empty()
        },
    }
}

fn make_signer(issuer: &str, home: &str, selector: &str, serial: String, next: String) -> (r: Signer)
    ensures
        r@ == signer(issuer@, home@, selector@, serial@, next@),
{
    let chain = if text_starts_with(selector, "intermediate:") {
        vec![owned(issuer), join_path(home, "chain/issuer-chain.pem")]
    } else {
        Vec::new()
    };
    let r = Signer {
        cert: owned(issuer),
        key: join_path(home, "private/ca.key.pem"),
        serial,
        serial_file: join_path(home, "serial"),
        next,
        chain,
    };
    assert(r@.chain =~= signer(issuer@, home@, selector@, serial@, next@).chain);
    r
}

/// The serial number a CA's serial file holds: one decimal number, trailing line ends
/// aside, below `u32::MAX` so that a next one exists.
pub open spec fn serial_value(contents: Seq<char>) -> Option<u32> {
    match parse_u32(trim_line_ends(contents)) {
        Some(v) => if v < u32::MAX {
            Some(v)
        } else {
            None
        },
        None => None,
    }
}

/// Reads the serial number a CA's serial file holds.
pub fn serial_of(contents: &str) -> (r: Option<u32>)
    ensures
        r == serial_value(contents@),
{
    let v = chars_of(contents);
    let mut end = v.len();
    assert(v@.subrange(0, end as int) =~= v@);
    while end > 0 && (v[end - 1] == '\r' || v[end - 1] == '\n')
        invariant
            v@ == contents@,
            end <= v@.len(),
            trim_line_ends(v@.subrange(0, end as int)) == trim_line_ends(contents@),
        decreases end,
    {
        assert(v@.subrange(0, end as int).drop_last() =~= v@.subrange(0, end - 1));
        end = end - 1;
    }
    let t = string_of(v.as_slice(), 0, end);
    assert(trim_line_ends(t@) == t@);
    match parse_amount(t.as_str()) {
        Some(n) => if n < u32::MAX {
            Some(n)
        } else {
            None
        },
        None => None,
    }
}

/// The serial numbers a signature uses: a placeholder in a dry run; otherwise the number the
/// signing CA's serial file holds (asked for as a fact), with the file's next contents.
pub open spec fn serial_numbers(facts: FactsView, home: Seq<char>, do_it: bool) -> Result<
    (Seq<char>, Seq<char>),
    StepView,
> {
    let file = path_join(home, "serial"@);
    if !do_it {
        Ok(("<next-serial>"@, Seq::empty()))
    } else {
        match facts.issuer_serial {
            None => Err(StepView::Need(NeedView::IssuerSerial(file))),
            Some(Err(e)) => Err(failed(6, "cannot read CA serial file: "@ + e)),
            Some(Ok(t)) => match serial_value(t) {
                None => Err(failed(11, "CA serial file does not hold a serial number: "@ + file)),
                Some(v) => Ok((decimal(v as nat), decimal((v + 1) as nat) + "\n"@)),
            },
        }
    }
}

fn serial_numbers_exec(facts: &Facts, home: &str, do_it: bool) -> (r: Result<(String, String), Step>)
    ensures
        match r {
            Ok((a, b)) => serial_numbers(facts@, home@, do_it) == Ok::<(Seq<char>, Seq<char>), StepView>((a@, b@)),
            Err(step) => serial_numbers(facts@, home@, do_it) == Err::<(Seq<char>, Seq<char>), StepView>(step@),
        },
{
    let file = join_path(home, "serial");
    if !do_it {
        let r = (owned("<next-serial>"), String::new());
        return Ok(r);
    }
    match &facts.issuer_serial {
        None => Err(Step::Need(Need::IssuerSerial(file))),
        Some(Err(e)) => {
            let mut m = owned("cannot read CA serial file: ");
            m.append(e.as_str());
            Err(fail_step(6, m))
        },
        Some(Ok(t)) => match serial_of(t.as_str()) {
            None => {
                let mut m = owned("CA serial file does not hold a serial number: ");
                m.append(file.as_str());
                Err(fail_step(11, m))
            },
            Some(v) => {
                let a = decimal_string(v as u64);
                let mut b = decimal_string((v + 1) as u64);
                b.append("\n");
                Ok((a, b))
            },
        },
    }
}

/// The passphrase file of a new key stored at `store`: none for a key left unencrypted.
pub open spec fn own_passphrase(c: ChoiceView, store: Seq<char>) -> Option<Seq<char>> {
    if encrypts(c) {
        Some(store)
    } else {
        None
    }
}

fn own_passphrase_of(c: &PassphraseChoice, store: &str) -> (r: Option<String>)
    ensures
        opt_text(r) == own_passphrase(c@, store@),
{
    match c {
        PassphraseChoice::Unencrypted => None,
        _ => Some(owned(store)),
    }
}

fn source_of(file: &Option<String>) -> (r: Option<String>)
    ensures
        opt_text(r) == file_source(opt_text(*file)),
{
    match file {
        Some(f) => {
            let mut s = owned("file:");
            s.append(f.as_str());
            Some(s)
        },
        None => None,
    }
}

fn as_str_opt(value: &Option<String>) -> (r: Option<&str>)
    ensures
        opt_str(r) == opt_text(*value),
{
    match value {
        Some(v) => Some(v.as_str()),
        None => None,
    }
}

fn writes_new(passphrase: &Option<String>, file: &Option<String>) -> (r: bool)
    ensures
        r == writes_new_passphrase(choice_of(*passphrase, *file)),
{
    match passphrase_choice(passphrase, file) {
        PassphraseChoice::Generate => true,
        PassphraseChoice::Value(_) => true,
        PassphraseChoice::Prompt => true,
        _ => false,
    }
}

fn encrypts_key(passphrase: &Option<String>, file: &Option<String>) -> (r: bool)
    ensures
        r == encrypts(choice_of(*passphrase, *file)),
{
    match passphrase_choice(passphrase, file) {
        PassphraseChoice::Unencrypted => false,
        _ => true,
    }
}

/// The lifetime of a root CA in days.
pub open spec fn total_days(args: RootArgs) -> nat {
    (args.days.amount as nat) * unit_days(args.days.unit)
}

/// The actions that create a root CA in `target`: its directories, its passphrase (as the
/// passphrase options choose it), its key, its extension file, its self-signed certificate,
/// and its empty CA database.
pub open spec fn root_actions(args: RootArgs, target: Seq<char>, days: nat) -> Seq<ActionView> {
    let key = path_join(target, "private/ca.key.pem"@);
    let cert = path_join(target, "certs/ca.cert.pem"@);
    let choice = choice_of(args.passphrase, args.passphrase_file);
    let own = own_passphrase(choice, path_join(target, "private/ca.passphrase"@));
    seq![
        ActionView::CreateDir { path: path_join(target, "private"@), prefix: Seq::empty(), private: true },
        ActionView::CreateDir { path: path_join(target, "certs"@), prefix: Seq::empty(), private: false },
        ActionView::CreateDir { path: path_join(target, "newcerts"@), prefix: Seq::empty(), private: false },
        ActionView::CreateDir { path: path_join(target, "config"@), prefix: Seq::empty(), private: false },
        ActionView::StorePassphrase {
            source: choice,
            store: path_join(target, "private/ca.passphrase"@),
            copy_supplied: true,
        },
        key_action(args.profile, key, own, Seq::empty(), None),
        ActionView::WriteFile {
            path: path_join(target, "config/ca.ext"@),
            contents: root_extension_text(args.pathlen, args.key_usage@),
            create_parent: false,
            cleanup: None,
        },
        ActionView::RunOpenssl {
            args: root_certificate_args(args, key, cert, days, file_source(own)),
            prefix: Seq::empty(),
            cleanup: None,
            restrict: None,
        },
        ActionView::WriteFile {
            path: path_join(target, "index.txt"@),
            contents: Seq::empty(),
            create_parent: false,
            cleanup: None,
        },
        ActionView::WriteFile {
            path: path_join(target, "serial"@),
            contents: "1000\n"@,
            create_parent: false,
            cleanup: None,
        },
    ]
}

/// The passphrase placeholder of root CA plans.
pub open spec fn root_placeholder() -> Seq<char> {
    "file:<generated-or-supplied-passphrase>"@
}

/// The artifacts of a root CA in `target`.
pub open spec fn root_artifacts(dir: Seq<char>, target: Seq<char>, includes_passphrase: bool) -> Seq<
    Seq<char>,
> {
    seq![
        artifact(dir, target, "private/ca.key.pem"@),
        artifact(dir, target, "certs/ca.cert.pem"@),
        artifact(dir, target, "config/ca.ext"@),
        artifact(dir, target, "index.txt"@),
        artifact(dir, target, "serial"@),
    ] + optional_artifact(dir, target, "private/ca.passphrase"@, includes_passphrase)
}

/// The plan for a root CA whose checks have passed: the dry-run report with the planned
/// commands and artifacts, or the actions and the report of a created root CA.
pub open spec fn root_plan(dir: Seq<char>, args: RootArgs, target: Seq<char>, days: nat) -> PlanView {
    let key = path_join(target, "private/ca.key.pem"@);
    let cert = path_join(target, "certs/ca.cert.pem"@);
    let choice = choice_of(args.passphrase, args.passphrase_file);
    let shown = shown_source(encrypts(choice), root_placeholder());
    if !args.do_it {
        PlanView {
            report: ok_report(
                "dry-run: root CA would be created for "@ + decimal(days) + " days"@,
                true,
                seq![path_below(dir, target)],
                seq![
                    with_program(key_args(args.profile, key, shown)),
                    with_program(root_certificate_args(args, key, cert, days, shown)),
                ],
                root_artifacts(dir, target, writes_new_passphrase(choice)),
            ),
            actions: Seq::empty(),
        }
    } else {
        PlanView {
            report: ok_report(
                "root CA created"@,
                false,
                root_artifacts(dir, target, encrypts(choice)),
                Seq::empty(),
                Seq::empty(),
            ),
            actions: root_actions(args, target, days),
        }
    }
}

/// How creating a root CA goes on, given the facts gathered so far: the subject, key usages,
/// lifetime (1 to 7300 days) and name are checked in that order; then the name must be
/// unused by every root and intermediate CA of every profile, and the target directory
/// `<dir>/<profile>/root/<name>/ca` must not exist.
pub open spec fn root_step(dir: Seq<char>, args: RootArgs, facts: FactsView) -> StepView {
    match root_checks(args) {
        Err(e) => failed(e.0, e.1),
        Ok(total) => match facts.names_in_use {
            None => StepView::Need(NeedView::NamesInUse(name_clash_paths(dir, args.name@))),
            Some(used) => if any_true(used) {
                failed(5, "CA name is already in use: "@ + args.name@)
            } else {
                let target = ca_dir(dir, args.profile, "root"@, args.name@);
                match facts.target_exists {
                    None => StepView::Need(NeedView::TargetExists(target)),
                    Some(true) => failed(5, "target already exists: "@ + target),
                    Some(false) => StepView::Plan(root_plan(dir, args, target, total)),
                }
            },
        },
    }
}

fn root_actions_exec(args: &RootArgs, target: &str, key: &str, cert: &str, days: u32) -> (r: Vec<Action>)
    requires
        key@ == path_join(target@, "private/ca.key.pem"@),
        cert@ == path_join(target@, "certs/ca.cert.pem"@),
    ensures
        actions_view(r@) == root_actions(*args, target@, days as nat),
{
    let store = join_path(target, "private/ca.passphrase");
    let choice = passphrase_choice(&args.passphrase, &args.passphrase_file);
    let own = own_passphrase_of(&choice, store.as_str());
    let source = source_of(&own);
    let r = vec![
        dir_action(target, "private", "", true),
        dir_action(target, "certs", "", false),
        dir_action(target, "newcerts", "", false),
        dir_action(target, "config", "", false),
        Action::StorePassphrase {
            source: choice,
            store,
            copy_supplied: true,
        },
        key_step(args.profile, key, as_str_opt(&own), "", &None),
        Action::WriteFile {
            path: join_path(target, "config/ca.ext"),
            contents: root_extension(args.pathlen, args.key_usage.as_slice()),
            create_parent: false,
            cleanup: None,
        },
        Action::RunOpenssl {
            args: root_certificate_command(args, key, cert, days, as_str_opt(&source)),
            prefix: String::new(),
            cleanup: None,
            restrict: None,
        },
        write_action(target, "index.txt", ""),
        write_action(target, "serial", "1000\n"),
    ];
    proof {
        reveal_strlit("");
        assert(""@ =~= Seq::<char>::empty());
        let expected = root_actions(*args, target@, days as nat);
        assert(r@[0]@ == expected[0]);
        assert(r@[1]@ == expected[1]);
        assert(r@[2]@ == expected[2]);
        assert(r@[3]@ == expected[3]);
        assert(r@[4]@ == expected[4]);
        assert(r@[5]@ == expected[5]);
        assert(r@[6]@ == expected[6]);
        assert(r@[7]@ == expected[7]);
        assert(r@[8]@ == expected[8]);
        assert(r@[9]@ == expected[9]);
    }
    assert(actions_view(r@) =~= root_actions(*args, target@, days as nat));
    r
}

/// The checks of a root CA's options that need no facts: passphrase options, subject, key
/// usages, lifetime (1 to 7300 days) and name, in that order; on success, the lifetime in
/// days.
pub open spec fn root_checks(args: RootArgs) -> Result<nat, (u8, Seq<char>)> {
    let total = total_days(args);
    if choice_error(args.passphrase, args.passphrase_file) is Some {
        Err(choice_error(args.passphrase, args.passphrase_file).unwrap())
    } else if !subject_complete(args.subject@) {
        Err((4, "common name and organization are required"@))
    } else if !country_ok(args.subject@) {
        Err((4, "country must be two letters"@))
    } else if !usages_ok_for_ca(args.key_usage@) {
        Err((4, "CA key usage must include key-cert-sign"@))
    } else if total > u32::MAX {
        Err((4, "duration is too large"@))
    } else if !(1 <= total <= 7300) {
        Err((4, days_range_message(1, 7300, total)))
    } else if !valid_name(args.name@) {
        Err((4, "name must contain only ASCII letters, digits, '-' or '_'"@))
    } else {
        Ok(total)
    }
}

fn check_root(args: &RootArgs) -> (r: Result<u32, Failure>)
    ensures
        match r {
            Ok(days) => root_checks(*args) == Ok::<nat, (u8, Seq<char>)>(days as nat),
            Err(e) => root_checks(*args) == Err::<nat, (u8, Seq<char>)>((e.0, e.1@)),
        },
{
    check_passphrase_options(&args.passphrase, &args.passphrase_file)?;
    validate_subject(&args.subject)?;
    validate_key_usages(args.key_usage.as_slice(), true)?;
    let days = normalized_days(&args.days, 1, 7300)?;
    validate_name(args.name.as_str())?;
    Ok(days)
}

/// Decides the next step of creating a root CA from the options and the facts gathered so
/// far; a dry run plans without actions, and an existing target is never overwritten.
pub fn create_root(dir: &str, args: &RootArgs, facts: &Facts) -> (r: Step)
    ensures
        r@ == root_step(dir@, *args, facts@),
{
    let days = match check_root(args) {
        Err(e) => {
            return fail_step(e.0, e.1);
        },
        Ok(days) => days,
    };
    let used = match &facts.names_in_use {
        None => {
            return Step::Need(Need::NamesInUse(ca_name_paths(dir, args.name.as_str())));
        },
        Some(used) => used,
    };
    let used_flags = used.as_slice();
    match ensure_unique_ca_name(args.name.as_str(), used_flags) {
        Err(e) => {
            assert(used_flags@ == used@);
            return fail_step(e.0, e.1);
        },
        Ok(()) => {},
    }
    let target = ca_directory(dir, args.profile, "root", args.name.as_str());
    match facts.target_exists {
        None => {
            return Step::Need(Need::TargetExists(target));
        },
        Some(true) => {
            let mut message = owned("target already exists: ");
            message.append(target.as_str());
            return fail_step(5, message);
        },
        Some(false) => {},
    }
    Step::Done(Ok(plan_root(dir, args, target.as_str(), days)))
}

fn plan_root(dir: &str, args: &RootArgs, target: &str, days: u32) -> (r: Plan)
    ensures
        r@ == root_plan(dir@, *args, target@, days as nat),
{
    let relative = relative_path(dir, target);
    let key = join_path(target, "private/ca.key.pem");
    let cert = join_path(target, "certs/ca.cert.pem");
    if !args.do_it {
        let planned_commands = root_command_plan(args, key.as_str(), cert.as_str(), days);
        let planned_artifacts = root_artifact_plan(dir, target, writes_new(&args.passphrase, &args.passphrase_file));
        let mut message = owned("dry-run: root CA would be created for ");
        let d = decimal_string(days as u64);
        message.append(d.as_str());
        message.append(" days");
        let mut report = success_with_path(message.as_str(), true, relative);
        report.planned_commands = planned_commands;
        report.planned_artifacts = planned_artifacts;
        let plan = Plan { report, actions: Vec::new() };
        assert(plan@.actions =~= Seq::<ActionView>::empty());
        return plan;
    }
    let actions = root_actions_exec(args, target, key.as_str(), cert.as_str(), days);
    let mut report = success_with_path("root CA created", false, relative);
    report.paths = root_artifact_plan(dir, target, encrypts_key(&args.passphrase, &args.passphrase_file));
    assert(report.planned_commands.deep_view() =~= Seq::<Seq<Seq<char>>>::empty());
    assert(report.planned_artifacts.deep_view() =~= Seq::<Seq<char>>::empty());
    assert(report@ == ok_report(
        "root CA created"@,
        false,
        root_artifacts(dir@, target@, encrypts(choice_of(args.passphrase, args.passphrase_file))),
        Seq::empty(),
        Seq::empty(),
    ));
    Plan { report, actions }
}


/// The options of an intermediate CA operation.
#[derive(Debug)]
pub struct IntermediateArgs {
    pub subject: SubjectArgs,
    pub profile: Option<Profile>,
    pub name: String,
    pub parent: String,
    pub days: CertificateDuration,
    pub pathlen: Option<u32>,
    pub key_usage: Vec<KeyUsage>,
    pub passphrase: Option<String>,
    pub passphrase_file: Option<String>,
    pub issuer_passphrase_file: Option<String>,
    pub do_it: bool,
}

/// The three candidate flags of an answer, missing ones as absent.
pub open spec fn three_flags(flags: Seq<bool>) -> Seq<bool> {
    Seq::new(3, |i: int| i < flags.len() && flags[i])
}

fn three(flags: &Vec<bool>) -> (r: Vec<bool>)
    ensures
        r@ == three_flags(flags@),
{
    let mut r: Vec<bool> = Vec::new();
    let mut i: usize = 0;
    while i < 3
        invariant
            i <= 3,
            r@ == Seq::new(i as nat, |k: int| k < flags@.len() && flags@[k]),
        decreases 3 - i,
    {
        r.push(i < flags.len() && flags[i]);
        i = i + 1;
        assert(r@ =~= Seq::new(i as nat, |k: int| k < flags@.len() && flags@[k]));
    }
    r
}

/// The candidates of an issuer selector, as a needed fact.
pub open spec fn candidates_view(dir: Seq<char>, selector: Seq<char>) -> Seq<Option<Seq<char>>> {
    Seq::new(3, |i: int| selector_path(dir, selector, all_profiles()[i]))
}

fn ask_issuer_files(dir: &str, selector: &str) -> (r: Step)
    ensures
        r@ == StepView::Need(NeedView::IssuerFiles(candidates_view(dir@, selector@))),
{
    let c = issuer_candidates(dir, selector);
    assert(c@.map_values(|x: Option<String>| opt_text(x)) =~= candidates_view(dir@, selector@));
    Step::Need(Need::IssuerFiles(c))
}

/// The lifetime of an intermediate CA in days.
pub open spec fn intermediate_days(args: IntermediateArgs) -> nat {
    (args.days.amount as nat) * unit_days(args.days.unit)
}

/// The checks of an intermediate CA's options that need no facts: name, parent selector
/// when a parent passphrase file is given, lifetime (1 to 3650 days) and key usages, in
/// that order; on success, the lifetime in days.
pub open spec fn intermediate_checks(args: IntermediateArgs) -> Result<nat, (u8, Seq<char>)> {
    let total = intermediate_days(args);
    if choice_error(args.passphrase, args.passphrase_file) is Some {
        Err(choice_error(args.passphrase, args.passphrase_file).unwrap())
    } else if !valid_name(args.name@) {
        Err((4, "name must contain only ASCII letters, digits, '-' or '_'"@))
    } else if args.issuer_passphrase_file is Some && blank(args.parent@) {
        Err((4, "--parent is required when using --parent-passphrase-file"@))
    } else if total > u32::MAX {
        Err((4, "duration is too large"@))
    } else if !(1 <= total <= 3650) {
        Err((4, days_range_message(1, 3650, total)))
    } else if !usages_ok_for_ca(args.key_usage@) {
        Err((4, "CA key usage must include key-cert-sign"@))
    } else {
        Ok(total)
    }
}

fn check_intermediate(args: &IntermediateArgs) -> (r: Result<u32, Failure>)
    ensures
        match r {
            Ok(days) => intermediate_checks(*args) == Ok::<nat, (u8, Seq<char>)>(days as nat),
            Err(e) => intermediate_checks(*args) == Err::<nat, (u8, Seq<char>)>((e.0, e.1@)),
        },
{
    check_passphrase_options(&args.passphrase, &args.passphrase_file)?;
    validate_name(args.name.as_str())?;
    if args.issuer_passphrase_file.is_some() && crate::text::text_blank(args.parent.as_str()) {
        return Err((4, owned("--parent is required when using --parent-passphrase-file")));
    }
    let days = normalized_days(&args.days, 1, 3650)?;
    validate_key_usages(args.key_usage.as_slice(), true)?;
    Ok(days)
}

/// The profile of a child: the parent's, where the child names none or the same one.
pub open spec fn child_profile(requested: Option<Profile>, parent: Profile) -> Result<Profile, Profile> {
    match requested {
        Some(p) => if profile_name(p) != profile_name(parent) {
            Err(p)
        } else {
            Ok(p)
        },
        None => Ok(parent),
    }
}

fn pick_profile(requested: Option<Profile>, parent: Profile) -> (r: Result<Profile, ()>)
    ensures
        match r {
            Ok(p) => child_profile(requested, parent) == Ok::<Profile, Profile>(p),
            Err(()) => requested is Some && child_profile(requested, parent) == Err::<Profile, Profile>(requested.unwrap()),
        },
{
    match requested {
        Some(p) => {
            proof {
                lemma_profile_name_injective(p, parent);
            }
            if p != parent {
                Err(())
            } else {
                Ok(p)
            }
        },
        None => Ok(parent),
    }
}

/// The message for a requested profile that differs from the parent's.
pub open spec fn profile_mismatch(kind: Seq<char>, requested: Profile, parent: Profile, parent_kind: Seq<char>) -> Seq<char> {
    kind + " profile "@ + profile_name(requested) + " does not match "@ + parent_kind + " profile "@
        + profile_name(parent)
}

fn mismatch_message(kind: &str, requested: Profile, parent: Profile, parent_kind: &str) -> (r: String)
    ensures
        r@ == profile_mismatch(kind@, requested, parent, parent_kind@),
{
    let mut m = owned(kind);
    m.append(" profile ");
    m.append(requested.text());
    m.append(" does not match ");
    m.append(parent_kind);
    m.append(" profile ");
    m.append(parent.text());
    m
}

/// The passphrase file of the issuer: the one given, or the issuer's default.
pub open spec fn issuer_passphrase_path(given: Option<String>, issuer: Seq<char>) -> Seq<char> {
    match given {
        Some(p) => p@,
        None => default_passphrase_path(issuer),
    }
}

fn issuer_passphrase_of(given: &Option<String>, issuer: &str) -> (r: String)
    ensures
        r@ == issuer_passphrase_path(*given, issuer@),
{
    match given {
        Some(p) => p.clone(),
        None => parent_default_passphrase(issuer),
    }
}

/// The actions that create an intermediate CA in `target`, signed by the parent certificate
/// and key: directories, passphrase, a check of the parent passphrase, key, request,
/// extension file, signature, empty CA database, and chain files.
pub open spec fn intermediate_actions(
    args: IntermediateArgs,
    profile: Profile,
    subject: SubjectView,
    target: Seq<char>,
    extension: Seq<char>,
    sg: SignerView,
    days: nat,
) -> Seq<ActionView> {
    let key = path_join(target, "private/ca.key.pem"@);
    let csr = path_join(target, "csr/ca.csr.pem"@);
    let cert = path_join(target, "certs/ca.cert.pem"@);
    let issuer_pass = issuer_passphrase_path(args.issuer_passphrase_file, sg.cert);
    let choice = choice_of(args.passphrase, args.passphrase_file);
    let own = own_passphrase(choice, path_join(target, "private/ca.passphrase"@));
    seq![
        ActionView::CreateDir { path: path_join(target, "private"@), prefix: Seq::empty(), private: true },
        ActionView::CreateDir { path: path_join(target, "certs"@), prefix: Seq::empty(), private: false },
        ActionView::CreateDir { path: path_join(target, "csr"@), prefix: Seq::empty(), private: false },
        ActionView::CreateDir { path: path_join(target, "newcerts"@), prefix: Seq::empty(), private: false },
        ActionView::CreateDir { path: path_join(target, "config"@), prefix: Seq::empty(), private: false },
        ActionView::CreateDir { path: path_join(target, "chain"@), prefix: Seq::empty(), private: false },
        ActionView::StorePassphrase {
            source: choice,
            store: path_join(target, "private/ca.passphrase"@),
            copy_supplied: true,
        },
        ActionView::CheckPassphrase {
            path: issuer_pass,
            prefix: "cannot read parent passphrase file: "@,
            suffix: "; provide --parent-passphrase-file to override the default"@,
        },
        key_action(profile, key, own, Seq::empty(), None),
        ActionView::RunOpenssl {
            args: csr_args(key, file_source(own), dn_text(subject), csr),
            prefix: Seq::empty(),
            cleanup: None,
            restrict: None,
        },
        ActionView::WriteFile {
            path: extension,
            contents: intermediate_extension_text(
                match args.pathlen {
                    Some(v) => v,
                    None => 0,
                },
                args.key_usage@,
            ),
            create_parent: true,
            cleanup: None,
        },
        ActionView::RunOpenssl {
            args: sign_args(csr, sg.cert, sg.key, "file:"@ + issuer_pass, days, sg.serial, extension, cert),
            prefix: Seq::empty(),
            cleanup: None,
            restrict: None,
        },
        ActionView::ReplaceFile { path: sg.serial_file, contents: sg.next },
        ActionView::WriteFile {
            path: path_join(target, "index.txt"@),
            contents: Seq::empty(),
            create_parent: false,
            cleanup: None,
        },
        ActionView::WriteFile {
            path: path_join(target, "serial"@),
            contents: "1000\n"@,
            create_parent: false,
            cleanup: None,
        },
        ActionView::WriteChain {
            sources: sg.chain,
            cert,
            issuer_chain: path_join(target, "chain/issuer-chain.pem"@),
            full_chain: path_join(target, "chain/fullchain.pem"@),
            required: false,
        },
    ]
}

/// The artifacts of an intermediate CA in `target` with its extension file.
pub open spec fn intermediate_artifacts(
    dir: Seq<char>,
    target: Seq<char>,
    extension: Seq<char>,
    includes_passphrase: bool,
) -> Seq<Seq<char>> {
    seq![
        artifact(dir, target, "private/ca.key.pem"@),
        artifact(dir, target, "csr/ca.csr.pem"@),
        artifact(dir, target, "certs/ca.cert.pem"@),
        path_below(dir, extension),
        artifact(dir, target, "index.txt"@),
        artifact(dir, target, "serial"@),
        artifact(dir, target, "chain/issuer-chain.pem"@),
        artifact(dir, target, "chain/fullchain.pem"@),
    ] + optional_artifact(dir, target, "private/ca.passphrase"@, includes_passphrase)
}

/// The plan for an intermediate CA whose checks have passed.
pub open spec fn intermediate_plan(
    dir: Seq<char>,
    args: IntermediateArgs,
    profile: Profile,
    subject: SubjectView,
    target: Seq<char>,
    sg: SignerView,
    days: nat,
) -> PlanView {
    let key = path_join(target, "private/ca.key.pem"@);
    let csr = path_join(target, "csr/ca.csr.pem"@);
    let cert = path_join(target, "certs/ca.cert.pem"@);
    let extension = extension_path(dir, args.name@);
    if !args.do_it {
        PlanView {
            report: ok_report(
                "dry-run: intermediate CA would be created for "@ + decimal(days) + " days"@,
                true,
                seq![path_below(dir, target)],
                seq![
                    with_program(
                        key_args(
                            profile,
                            key,
                            shown_source(encrypts(choice_of(args.passphrase, args.passphrase_file)), "file:<child-passphrase>"@),
                        ),
                    ),
                    with_program(
                        csr_args(
                            key,
                            shown_source(encrypts(choice_of(args.passphrase, args.passphrase_file)), "file:<child-passphrase>"@),
                            dn_text(subject),
                            csr,
                        ),
                    ),
                    with_program(
                        sign_args(
                            csr,
                            sg.cert,
                            sg.key,
                            "file:<parent-passphrase>"@,
                            days,
                            sg.serial,
                            extension,
                            cert,
                        ),
                    ),
                ],
                intermediate_artifacts(
                    dir,
                    target,
                    extension,
                    writes_new_passphrase(choice_of(args.passphrase, args.passphrase_file)),
                ),
            ),
            actions: Seq::empty(),
        }
    } else {
        PlanView {
            report: ok_report(
                "intermediate CA created"@,
                false,
                intermediate_artifacts(dir, target, extension, encrypts(choice_of(args.passphrase, args.passphrase_file))),
                Seq::empty(),
                Seq::empty(),
            ),
            actions: intermediate_actions(args, profile, subject, target, extension, sg, days),
        }
    }
}

/// How creating an intermediate CA goes on once its parent certificate is known: the
/// parent's subject fills in omitted subject fields, the subject is checked, an explicit
/// profile must be the parent's, and then as `intermediate_within_parent` says, given the
/// parent's expiry and path length constraint.
pub open spec fn intermediate_after_parent(
    dir: Seq<char>,
    args: IntermediateArgs,
    facts: FactsView,
    days: nat,
    parent: Seq<char>,
    parent_profile: Profile,
) -> StepView {
    match facts.issuer_certificate {
        None => StepView::Need(NeedView::IssuerCertificate(parent)),
        Some(Err(error)) => failed(6, error),
        Some(Ok(bytes)) => match pem_block(bytes) {
            None => failed(4, "parent certificate is not PEM"@),
            Some(der) => match x509_subject(der) {
                None => failed(4, "parent certificate is not X.509"@),
                Some(text) => {
                    let subject = inherited(subject_from(text), args.subject@);
                    if !subject_complete(subject) {
                        failed(4, "common name and organization are required"@)
                    } else if !country_ok(subject) {
                        failed(4, "country must be two letters"@)
                    } else {
                        match child_profile(args.profile, parent_profile) {
                            Err(requested) => failed(
                                4,
                                profile_mismatch("intermediate"@, requested, parent_profile, "parent"@),
                            ),
                            Ok(profile) => intermediate_within_parent(
                                dir,
                                args,
                                facts,
                                days,
                                parent,
                                profile,
                                subject,
                                pem_not_after(bytes),
                                pem_path_len(bytes),
                            ),
                        }
                    }
                },
            },
        },
    }
}

/// The path length of a new intermediate CA: the one given, or 0.
pub open spec fn child_path_len(args: IntermediateArgs) -> u32 {
    match args.pathlen {
        Some(v) => v,
        None => 0,
    }
}

/// Whether a child CA with path length `child` fits below a parent whose path length
/// constraint is `parent` (none: no limit): its own must be lower.
pub open spec fn path_len_fits(child: u32, parent: Option<u32>) -> bool {
    match parent {
        Some(p) => child < p,
        None => true,
    }
}

/// The message for a child CA whose path length does not fit below its parent's.
pub open spec fn path_len_message(child: u32, parent: u32) -> Seq<char> {
    "intermediate CA path length "@ + decimal(child as nat) + " must be lower than the parent's path length "@
        + decimal(parent as nat)
}

/// The message for a child CA that would outlive its parent, which expires at `expiry`.
pub open spec fn outlive_message(expiry: int) -> Seq<char> {
    "intermediate CA would outlive its parent certificate, which expires "@ + timestamp_text(expiry)
}

/// How creating an intermediate CA goes on once its subject and profile are settled: its
/// lifetime, counted from now, must end no later than the parent certificate's, its path
/// length (0 when not given) must be lower than the parent's constraint, the target
/// `<dir>/<profile>/intermediate/<name>/ca` must not exist, and the parent certificate must
/// have a CA directory for its key; an executed plan signs with the serial number that the
/// parent's serial file holds.
pub open spec fn intermediate_within_parent(
    dir: Seq<char>,
    args: IntermediateArgs,
    facts: FactsView,
    days: nat,
    parent: Seq<char>,
    profile: Profile,
    subject: SubjectView,
    expiry: Option<int>,
    parent_path_len: Option<Option<u32>>,
) -> StepView {
    let child = child_path_len(args);
    match facts.now {
        None => StepView::Need(NeedView::CurrentTime),
        Some(now) => match (expiry, parent_path_len) {
            (None, _) => failed(4, "parent certificate is not X.509"@),
            (_, None) => failed(4, "parent certificate is not X.509"@),
            (Some(e), Some(limit)) => if now + days * 86400 > e {
                failed(4, outlive_message(e))
            } else if !path_len_fits(child, limit) {
                failed(4, path_len_message(child, limit.unwrap()))
            } else {
                let target = ca_dir(dir, profile, "intermediate"@, args.name@);
                match facts.target_exists {
                    None => StepView::Need(NeedView::TargetExists(target)),
                    Some(true) => failed(5, "target already exists: "@ + target),
                    Some(false) => match ca_home(parent) {
                        None => failed(6, "cannot determine parent key path"@),
                        Some(home) => match serial_numbers(facts, home, args.do_it) {
                            Err(step) => step,
                            Ok(numbers) => StepView::Plan(
                                intermediate_plan(
                                    dir,
                                    args,
                                    profile,
                                    subject,
                                    target,
                                    signer(parent, home, args.parent@, numbers.0, numbers.1),
                                    days,
                                ),
                            ),
                        },
                    },
                }
            },
        },
    }
}

/// How creating an intermediate CA goes on, given the facts gathered so far: the options
/// are checked, a name that a root or intermediate CA of any profile already uses is
/// refused (code 5), the parent selector is resolved among the candidate certificates, and
/// then as `intermediate_after_parent` says.
pub open spec fn intermediate_step(dir: Seq<char>, args: IntermediateArgs, facts: FactsView) -> StepView {
    match intermediate_checks(args) {
        Err(e) => failed(e.0, e.1),
        Ok(days) => match facts.names_in_use {
            None => StepView::Need(NeedView::NamesInUse(name_clash_paths(dir, args.name@))),
            Some(used) => if any_true(used) {
                failed(5, "CA name is already in use: "@ + args.name@)
            } else {
                match facts.issuer_files {
                    None => StepView::Need(NeedView::IssuerFiles(candidates_view(dir, args.parent@))),
                    Some(flags) => match resolution(dir, args.parent@, three_flags(flags)) {
                        Err(e) => failed(e.0, e.1),
                        Ok(parent) => intermediate_after_parent(dir, args, facts, days, parent.0, parent.1),
                    },
                }
            },
        },
    }
}

#[verifier::rlimit(80)]
fn intermediate_actions_exec(
    dir: &str,
    args: &IntermediateArgs,
    profile: Profile,
    subject: &SubjectArgs,
    target: &str,
    extension: &str,
    sg: &Signer,
    days: u32,
) -> (r: Vec<Action>)
    ensures
        actions_view(r@) == intermediate_actions(*args, profile, subject@, target@, extension@, sg@, days as nat),
{
    let key = join_path(target, "private/ca.key.pem");
    let csr = join_path(target, "csr/ca.csr.pem");
    let cert = join_path(target, "certs/ca.cert.pem");
    let issuer_pass = issuer_passphrase_of(&args.issuer_passphrase_file, sg.cert.as_str());
    let store = join_path(target, "private/ca.passphrase");
    let choice = passphrase_choice(&args.passphrase, &args.passphrase_file);
    let own = own_passphrase_of(&choice, store.as_str());
    let own_source = source_of(&own);
    let mut parent_source = owned("file:");
    parent_source.append(issuer_pass.as_str());
    let pathlen = match args.pathlen {
        Some(v) => v,
        None => 0,
    };
    let mut chain: Vec<String> = Vec::new();
    extend_strings(&mut chain, &sg.chain);
    let r = vec![
        dir_action(target, "private", "", true),
        dir_action(target, "certs", "", false),
        dir_action(target, "csr", "", false),
        dir_action(target, "newcerts", "", false),
        dir_action(target, "config", "", false),
        dir_action(target, "chain", "", false),
        Action::StorePassphrase {
            source: choice,
            store,
            copy_supplied: true,
        },
        Action::CheckPassphrase {
            path: issuer_pass,
            prefix: owned("cannot read parent passphrase file: "),
            suffix: owned("; provide --parent-passphrase-file to override the default"),
        },
        key_step(profile, key.as_str(), as_str_opt(&own), "", &None),
        Action::RunOpenssl {
            args: csr_command(key.as_str(), as_str_opt(&own_source), subject, csr.as_str()),
            prefix: String::new(),
            cleanup: None,
            restrict: None,
        },
        Action::WriteFile {
            path: owned(extension),
            contents: intermediate_extension(pathlen, args.key_usage.as_slice()),
            create_parent: true,
            cleanup: None,
        },
        Action::RunOpenssl {
            args: sign_command(
                csr.as_str(),
                sg.cert.as_str(),
                sg.key.as_str(),
                parent_source.as_str(),
                days,
                sg.serial.as_str(),
                extension,
                cert.as_str(),
            ),
            prefix: String::new(),
            cleanup: None,
            restrict: None,
        },
        Action::ReplaceFile { path: sg.serial_file.clone(), contents: sg.next.clone() },
        write_action(target, "index.txt", ""),
        write_action(target, "serial", "1000\n"),
        Action::WriteChain {
            sources: chain,
            cert,
            issuer_chain: join_path(target, "chain/issuer-chain.pem"),
            full_chain: join_path(target, "chain/fullchain.pem"),
            required: false,
        },
    ];
    proof {
        reveal_strlit("");
        assert(""@ =~= Seq::<char>::empty());
        let expected = intermediate_actions(*args, profile, subject@, target@, extension@, sg@, days as nat);
        assert(r@[0]@ == expected[0]);
        assert(r@[1]@ == expected[1]);
        assert(r@[2]@ == expected[2]);
        assert(r@[3]@ == expected[3]);
        assert(r@[4]@ == expected[4]);
        assert(r@[5]@ == expected[5]);
        assert(r@[6]@ == expected[6]);
        assert(r@[7]@ == expected[7]);
        assert(r@[8]@ == expected[8]);
        assert(r@[9]@ == expected[9]);
        assert(r@[10]@ == expected[10]);
        assert(r@[11]@ == expected[11]);
        assert(r@[12]@ == expected[12]);
        assert(r@[13]@ == expected[13]);
        assert(r@[14]@ == expected[14]);
        assert(r@[15]@ == expected[15]);
        assert(actions_view(r@) =~= expected);
    }
    r
}

fn plan_intermediate(
    dir: &str,
    args: &IntermediateArgs,
    profile: Profile,
    subject: &SubjectArgs,
    target: &str,
    sg: &Signer,
    days: u32,
) -> (r: Plan)
    ensures
        r@ == intermediate_plan(dir@, *args, profile, subject@, target@, sg@, days as nat),
{
    let relative = relative_path(dir, target);
    let key = join_path(target, "private/ca.key.pem");
    let csr = join_path(target, "csr/ca.csr.pem");
    let cert = join_path(target, "certs/ca.cert.pem");
    let extension = intermediate_extension_path(dir, args.name.as_str());
    if !args.do_it {
        let planned_commands = intermediate_command_plan(
            profile,
            key.as_str(),
            csr.as_str(),
            cert.as_str(),
            sg.cert.as_str(),
            sg.key.as_str(),
            extension.as_str(),
            subject,
            days,
            args.key_usage.as_slice(),
            sg.serial.as_str(),
            encrypts_key(&args.passphrase, &args.passphrase_file),
        );
        let planned_artifacts = intermediate_artifact_plan(
            dir,
            target,
            extension.as_str(),
            writes_new(&args.passphrase, &args.passphrase_file),
        );
        let mut message = owned("dry-run: intermediate CA would be created for ");
        let d = decimal_string(days as u64);
        message.append(d.as_str());
        message.append(" days");
        let mut report = success_with_path(message.as_str(), true, relative);
        report.planned_commands = planned_commands;
        report.planned_artifacts = planned_artifacts;
        let plan = Plan { report, actions: Vec::new() };
        assert(plan@.actions =~= Seq::<ActionView>::empty());
        return plan;
    }
    let actions = intermediate_actions_exec(dir, args, profile, subject, target, extension.as_str(), sg, days);
    let mut report = success_with_path("intermediate CA created", false, relative);
    report.paths = intermediate_artifact_plan(
        dir,
        target,
        extension.as_str(),
        encrypts_key(&args.passphrase, &args.passphrase_file),
    );
    assert(report.planned_commands.deep_view() =~= Seq::<Seq<Seq<char>>>::empty());
    assert(report.planned_artifacts.deep_view() =~= Seq::<Seq<char>>::empty());
    Plan { report, actions }
}

fn outlive_text(expiry: i64) -> (r: String)
    ensures
        r@ == outlive_message(expiry as int),
{
    let mut m = owned("intermediate CA would outlive its parent certificate, which expires ");
    let t = format_timestamp(expiry);
    m.append(t.as_str());
    m
}

fn intermediate_within(
    dir: &str,
    args: &IntermediateArgs,
    facts: &Facts,
    days: u32,
    parent: &str,
    profile: Profile,
    subject: &SubjectArgs,
    expiry: Option<i64>,
    parent_path_len: Option<Option<u32>>,
) -> (r: Step)
    ensures
        r@ == intermediate_within_parent(
            dir@,
            *args,
            facts@,
            days as nat,
            parent@,
            profile,
            subject@,
            match expiry {
                Some(t) => Some(t as int),
                None => None,
            },
            parent_path_len,
        ),
{
    let now = match facts.now {
        None => {
            return Step::Need(Need::CurrentTime);
        },
        Some(now) => now,
    };
    let e = match expiry {
        None => {
            return fail_step(4, owned("parent certificate is not X.509"));
        },
        Some(e) => e,
    };
    let limit = match parent_path_len {
        None => {
            return fail_step(4, owned("parent certificate is not X.509"));
        },
        Some(limit) => limit,
    };
    if (now as i128) + (days as i128) * 86400 > (e as i128) {
        return fail_step(4, outlive_text(e));
    }
    let child_path_len: u32 = match args.pathlen {
        Some(v) => v,
        None => 0,
    };
    match limit {
        Some(p) => if child_path_len >= p {
            let mut m = owned("intermediate CA path length ");
            let c = decimal_string(child_path_len as u64);
            m.append(c.as_str());
            m.append(" must be lower than the parent's path length ");
            let q = decimal_string(p as u64);
            m.append(q.as_str());
            return fail_step(4, m);
        },
        None => {},
    }
    let target = ca_directory(dir, profile, "intermediate", args.name.as_str());
    match facts.target_exists {
        None => {
            return Step::Need(Need::TargetExists(target));
        },
        Some(true) => {
            let mut message = owned("target already exists: ");
            message.append(target.as_str());
            return fail_step(5, message);
        },
        Some(false) => {},
    }
    let home = match ca_home_of(parent) {
        None => {
            return fail_step(6, owned("cannot determine parent key path"));
        },
        Some(h) => h,
    };
    let (serial, next) = match serial_numbers_exec(facts, home.as_str(), args.do_it) {
        Err(step) => {
            return step;
        },
        Ok(numbers) => numbers,
    };
    let sg = make_signer(parent, home.as_str(), args.parent.as_str(), serial, next);
    Step::Done(Ok(plan_intermediate(dir, args, profile, subject, target.as_str(), &sg, days)))
}

fn intermediate_with_parent(
    dir: &str,
    args: &IntermediateArgs,
    facts: &Facts,
    days: u32,
    parent: &ResolvedIssuer,
) -> (r: Step)
    ensures
        r@ == intermediate_after_parent(dir@, *args, facts@, days as nat, parent.path@, parent.profile),
{
    let bytes = match &facts.issuer_certificate {
        None => {
            return Step::Need(Need::IssuerCertificate(parent.path.clone()));
        },
        Some(Err(error)) => {
            return fail_step(6, error.clone());
        },
        Some(Ok(bytes)) => bytes,
    };
    let parent_subject = match read_subject(bytes.as_slice()) {
        Err(e) => {
            return fail_step(e.0, e.1);
        },
        Ok(s) => s,
    };
    let subject = inherited_subject(&parent_subject, &args.subject);
    match validate_subject(&subject) {
        Err(e) => {
            return fail_step(e.0, e.1);
        },
        Ok(()) => {},
    }
    let profile = match pick_profile(args.profile, parent.profile) {
        Ok(p) => p,
        Err(()) => {
            let requested = args.profile.unwrap();
            return fail_step(4, mismatch_message("intermediate", requested, parent.profile, "parent"));
        },
    };
    let expiry = not_after_of(bytes.as_slice());
    let parent_path_len = path_len_of(bytes.as_slice());
    intermediate_within(dir, args, facts, days, parent.path.as_str(), profile, &subject, expiry, parent_path_len)
}

/// Decides the next step of creating an intermediate CA from the options and the facts
/// gathered so far; a dry run plans without actions, a name in use is refused, and an
/// existing target is never overwritten.
pub fn create_intermediate(dir: &str, args: &IntermediateArgs, facts: &Facts) -> (r: Step)
    ensures
        r@ == intermediate_step(dir@, *args, facts@),
{
    let days = match check_intermediate(args) {
        Err(e) => {
            return fail_step(e.0, e.1);
        },
        Ok(days) => days,
    };
    let used = match &facts.names_in_use {
        None => {
            return Step::Need(Need::NamesInUse(ca_name_paths(dir, args.name.as_str())));
        },
        Some(used) => used,
    };
    match ensure_unique_ca_name(args.name.as_str(), used.as_slice()) {
        Err(e) => {
            return fail_step(e.0, e.1);
        },
        Ok(()) => {},
    }
    let flags = match &facts.issuer_files {
        None => {
            return ask_issuer_files(dir, args.parent.as_str());
        },
        Some(flags) => three(flags),
    };
    let parent = match resolve_issuer(dir, args.parent.as_str(), flags.as_slice()) {
        Err(e) => {
            return fail_step(e.0, e.1);
        },
        Ok(parent) => parent,
    };
    intermediate_with_parent(dir, args, facts, days, &parent)
}


/// The options of a leaf certificate operation.
#[derive(Debug)]
pub struct CertArgs {
    pub subject: SubjectArgs,
    pub profile: Option<Profile>,
    pub name: String,
    pub issuer: String,
    pub days: CertificateDuration,
    pub san: Vec<String>,
    pub key_usage: Vec<KeyUsage>,
    pub dns: Vec<String>,
    pub ip: Vec<String>,
    pub passphrase: Option<String>,
    pub passphrase_file: Option<String>,
    pub issuer_passphrase_file: Option<String>,
    pub do_it: bool,
}

/// Every subject alternative name given, from `--san`, `--dns` and `--ip` in that order.
pub open spec fn san_values(args: CertArgs) -> Seq<Seq<char>> {
    args.san.deep_view() + args.dns.deep_view() + args.ip.deep_view()
}

/// The subject alternative names of a leaf certificate, sorted by code point without
/// repeats; none given is an error.
pub fn normalize_sans(args: &CertArgs) -> (r: Result<Vec<String>, Failure>)
    ensures
        match r {
            Ok(values) => san_values(*args).len() > 0 && values.deep_view() == sorted_set(
                san_values(*args),
            ),
            Err(e) => san_values(*args).len() == 0 && e.0 == 4 && e.1@
                == "at least one --san is required"@,
        },
{
    let mut all: Vec<String> = Vec::new();
    extend_strings(&mut all, &args.san);
    extend_strings(&mut all, &args.dns);
    extend_strings(&mut all, &args.ip);
    assert(all.deep_view() =~= san_values(*args));
    let values = sorted_unique(&all);
    proof {
        lemma_sorted_set(all.deep_view(), values.deep_view());
    }
    if values.len() == 0 {
        proof {
            if san_values(*args).len() > 0 {
                assert(san_values(*args).contains(san_values(*args)[0]));
                assert(values.deep_view().contains(san_values(*args)[0]));
            }
        }
        return Err((4, owned("at least one --san is required")));
    }
    proof {
        assert(values.deep_view().contains(values.deep_view()[0]));
    }
    Ok(values)
}

/// The address flags of an answer, one per name, missing ones as not an address.
pub open spec fn address_flags(n: nat, flags: Seq<bool>) -> Seq<bool> {
    Seq::new(n, |i: int| i < flags.len() && flags[i])
}

fn flags_for(n: usize, flags: &Vec<bool>) -> (r: Vec<bool>)
    ensures
        r@ == address_flags(n as nat, flags@),
{
    let mut r: Vec<bool> = Vec::new();
    let mut i: usize = 0;
    while i < n
        invariant
            i <= n,
            r@ == Seq::new(i as nat, |k: int| k < flags@.len() && flags@[k]),
        decreases n - i,
    {
        r.push(i < flags.len() && flags[i]);
        i = i + 1;
        assert(r@ =~= Seq::new(i as nat, |k: int| k < flags@.len() && flags@[k]));
    }
    r
}

/// The lifetime of a leaf certificate in days.
pub open spec fn leaf_days(args: CertArgs) -> nat {
    (args.days.amount as nat) * unit_days(args.days.unit)
}

/// The artifacts of a leaf certificate in `target`.
pub open spec fn certificate_artifacts(dir: Seq<char>, target: Seq<char>, includes_passphrase: bool) -> Seq<
    Seq<char>,
> {
    seq![
        artifact(dir, target, "private/key.pem"@),
        artifact(dir, target, "csr/request.csr.pem"@),
        artifact(dir, target, "certs/cert.pem"@),
        artifact(dir, target, "config/leaf-ext.cnf"@),
        artifact(dir, target, "chain/issuer-chain.pem"@),
        artifact(dir, target, "chain/fullchain.pem"@),
    ] + optional_artifact(dir, target, "private/passphrase"@, includes_passphrase)
}

/// A leaf directory action, whose failure names the directory.
pub open spec fn leaf_dir_action(target: Seq<char>, part: Seq<char>, private: bool) -> ActionView {
    ActionView::CreateDir {
        private,
        path: path_join(target, part),
        prefix: "cannot create leaf directory "@ + path_join(target, part) + ": "@,
    }
}

/// The passphrase file of the new leaf key: the file chosen, none for an unencrypted key,
/// or else `private/passphrase` in `target`.
pub open spec fn leaf_passphrase_path(c: ChoiceView, target: Seq<char>) -> Option<Seq<char>> {
    match c {
        ChoiceView::File(p) => Some(p),
        ChoiceView::Unencrypted => None,
        _ => Some(path_join(target, "private/passphrase"@)),
    }
}

fn leaf_passphrase_of(c: &PassphraseChoice, target: &str) -> (r: Option<String>)
    ensures
        opt_text(r) == leaf_passphrase_path(c@, target@),
{
    match c {
        PassphraseChoice::File(p) => Some(p.clone()),
        PassphraseChoice::Unencrypted => None,
        _ => Some(join_path(target, "private/passphrase")),
    }
}

/// The actions that create a leaf certificate in `target`, signed by `sg`: directories,
/// passphrase, key (removing `target` if that fails), request, extension file (likewise),
/// signature, a check of the issued names (likewise), the signer's next serial number, and
/// chain files.
pub open spec fn certificate_actions(
    args: CertArgs,
    profile: Profile,
    subject: SubjectView,
    sans: Seq<Seq<char>>,
    addresses: Seq<bool>,
    target: Seq<char>,
    sg: SignerView,
    days: nat,
) -> Seq<ActionView> {
    let key = path_join(target, "private/key.pem"@);
    let csr = path_join(target, "csr/request.csr.pem"@);
    let cert = path_join(target, "certs/cert.pem"@);
    let ext = path_join(target, "config/leaf-ext.cnf"@);
    let issuer_pass = issuer_passphrase_path(args.issuer_passphrase_file, sg.cert);
    let choice = choice_of(args.passphrase, args.passphrase_file);
    seq![
        leaf_dir_action(target, "private"@, true),
        leaf_dir_action(target, "csr"@, false),
        leaf_dir_action(target, "certs"@, false),
        leaf_dir_action(target, "chain"@, false),
        leaf_dir_action(target, "config"@, false),
        ActionView::StorePassphrase {
            source: choice,
            store: path_join(target, "private/passphrase"@),
            copy_supplied: false,
        },
        key_action(
            profile,
            key,
            leaf_passphrase_path(choice, target),
            "cannot generate leaf key "@ + key + ": "@,
            Some(target),
        ),
        ActionView::RunOpenssl {
            args: csr_args(key, file_source(leaf_passphrase_path(choice, target)), dn_text(subject), csr),
            prefix: Seq::empty(),
            cleanup: None,
            restrict: None,
        },
        ActionView::WriteFile {
            path: ext,
            contents: leaf_extension_text(sans, addresses, args.key_usage@),
            create_parent: false,
            cleanup: Some(target),
        },
        ActionView::RunOpenssl {
            args: sign_args(csr, sg.cert, sg.key, "file:"@ + issuer_pass, days, sg.serial, ext, cert),
            prefix: Seq::empty(),
            cleanup: None,
            restrict: None,
        },
        ActionView::VerifySans { cert, sans, addresses, cleanup: Some(target) },
        ActionView::ReplaceFile { path: sg.serial_file, contents: sg.next },
        ActionView::WriteChain {
            sources: sg.chain,
            cert,
            issuer_chain: path_join(target, "chain/issuer-chain.pem"@),
            full_chain: path_join(target, "chain/fullchain.pem"@),
            required: true,
        },
    ]
}

/// The plan for a leaf certificate whose checks have passed.
pub open spec fn certificate_plan(
    dir: Seq<char>,
    args: CertArgs,
    profile: Profile,
    subject: SubjectView,
    sans: Seq<Seq<char>>,
    addresses: Seq<bool>,
    target: Seq<char>,
    sg: SignerView,
    days: nat,
) -> PlanView {
    let key = path_join(target, "private/key.pem"@);
    let csr = path_join(target, "csr/request.csr.pem"@);
    let cert = path_join(target, "certs/cert.pem"@);
    let ext = path_join(target, "config/leaf-ext.cnf"@);
    if !args.do_it {
        PlanView {
            report: ok_report(
                "dry-run: certificate would be created for "@ + decimal(days) + " days"@,
                true,
                seq![path_below(dir, target)],
                seq![
                    with_program(
                        key_args(
                            profile,
                            key,
                            shown_source(encrypts(choice_of(args.passphrase, args.passphrase_file)), "file:<leaf-passphrase>"@),
                        ),
                    ),
                    with_program(
                        csr_args(
                            key,
                            shown_source(encrypts(choice_of(args.passphrase, args.passphrase_file)), "file:<leaf-passphrase>"@),
                            dn_text(subject),
                            csr,
                        ),
                    ),
                    with_program(
                        sign_args(
                            csr,
                            sg.cert,
                            sg.key,
                            "file:<issuer-passphrase>"@,
                            days,
                            sg.serial,
                            ext,
                            cert,
                        ),
                    ),
                ],
                certificate_artifacts(
                    dir,
                    target,
                    writes_new_passphrase(choice_of(args.passphrase, args.passphrase_file)),
                ),
            ),
            actions: Seq::empty(),
        }
    } else {
        PlanView {
            report: ok_report(
                "certificate created"@,
                false,
                certificate_artifacts(dir, target, encrypts(choice_of(args.passphrase, args.passphrase_file))),
                Seq::empty(),
                Seq::empty(),
            ),
            actions: certificate_actions(
                args,
                profile,
                subject,
                sans,
                addresses,
                target,
                sg,
                days,
            ),
        }
    }
}

/// How creating a leaf certificate goes on once its issuer certificate is known: the
/// issuer's subject fills in omitted fields, the subject is checked, an explicit profile
/// must be the issuer's, the issuer certificate must lie in a CA directory whose key
/// exists, the issuer passphrase file (given or default) must read, and then as
/// `leaf_after_passphrases` says.
pub open spec fn certificate_after_issuer(
    dir: Seq<char>,
    args: CertArgs,
    facts: FactsView,
    days: nat,
    sans: Seq<Seq<char>>,
    addresses: Seq<bool>,
    issuer: Seq<char>,
    issuer_profile: Profile,
) -> StepView {
    match facts.issuer_certificate {
        None => StepView::Need(NeedView::IssuerCertificate(issuer)),
        Some(Err(error)) => failed(6, error),
        Some(Ok(bytes)) => match pem_block(bytes) {
            None => failed(4, "parent certificate is not PEM"@),
            Some(der) => match x509_subject(der) {
                None => failed(4, "parent certificate is not X.509"@),
                Some(text) => {
                    let subject = inherited(subject_from(text), args.subject@);
                    if !subject_complete(subject) {
                        failed(4, "common name and organization are required"@)
                    } else if !country_ok(subject) {
                        failed(4, "country must be two letters"@)
                    } else {
                        match child_profile(args.profile, issuer_profile) {
                            Err(requested) => failed(
                                4,
                                profile_mismatch("certificate"@, requested, issuer_profile, "issuer"@),
                            ),
                            Ok(profile) => match ca_home(issuer) {
                                None => failed(6, "cannot determine issuer key path"@),
                                Some(home) => match facts.issuer_key {
                                    None => StepView::Need(NeedView::IssuerKey(path_join(home, "private/ca.key.pem"@))),
                                    Some(false) => failed(
                                        4,
                                        "issuer private key does not exist: "@ + path_join(home, "private/ca.key.pem"@),
                                    ),
                                    Some(true) => {
                                        let issuer_pass = issuer_passphrase_path(args.issuer_passphrase_file, issuer);
                                        match facts.issuer_passphrase {
                                            None => StepView::Need(NeedView::IssuerPassphrase(issuer_pass)),
                                            Some(Err(e)) => failed(4, "cannot read issuer passphrase file: "@ + e.1),
                                            Some(Ok(_)) => leaf_after_passphrases(
                                                dir,
                                                args,
                                                facts,
                                                days,
                                                sans,
                                                addresses,
                                                issuer,
                                                home,
                                                profile,
                                                subject,
                                            ),
                                        }
                                    },
                                },
                            },
                        }
                    }
                },
            },
        },
    }
}

/// The last checks of a leaf certificate: a supplied leaf passphrase file must read, and the
/// target `<dir>/<profile>/certs/<name>` must not exist; an executed plan signs with the
/// serial number that the issuer's serial file (in its CA directory `home`) holds.
pub open spec fn leaf_after_passphrases(
    dir: Seq<char>,
    args: CertArgs,
    facts: FactsView,
    days: nat,
    sans: Seq<Seq<char>>,
    addresses: Seq<bool>,
    issuer: Seq<char>,
    home: Seq<char>,
    profile: Profile,
    subject: SubjectView,
) -> StepView {
    let leaf_ok = match choice_of(args.passphrase, args.passphrase_file) {
        ChoiceView::File(p) => match facts.leaf_passphrase {
            None => Err(StepView::Need(NeedView::LeafPassphrase(p))),
            Some(Err(e)) => Err(failed(e.0, e.1)),
            Some(Ok(_)) => Ok(()),
        },
        _ => Ok(()),
    };
    match leaf_ok {
        Err(step) => step,
        Ok(()) => {
            let target = leaf_dir(dir, profile, args.name@);
            match facts.target_exists {
                None => StepView::Need(NeedView::TargetExists(target)),
                Some(true) => failed(5, "target already exists: "@ + target),
                Some(false) => match serial_numbers(facts, home, args.do_it) {
                    Err(step) => step,
                    Ok(numbers) => StepView::Plan(
                        certificate_plan(
                            dir,
                            args,
                            profile,
                            subject,
                            sans,
                            addresses,
                            target,
                            signer(issuer, home, args.issuer@, numbers.0, numbers.1),
                            days,
                        ),
                    ),
                },
            }
        },
    }
}

/// How creating a leaf certificate goes on, given the facts gathered so far: the name and
/// lifetime (1 to 397 days) are checked, the subject alternative names are gathered, sorted
/// and deduplicated (at least one, and none refused), the key usages are checked, the
/// issuer selector is resolved, and then as `certificate_after_issuer` says.
pub open spec fn certificate_step(dir: Seq<char>, args: CertArgs, facts: FactsView) -> StepView {
    let total = leaf_days(args);
    if choice_error(args.passphrase, args.passphrase_file) is Some {
        failed(
            choice_error(args.passphrase, args.passphrase_file).unwrap().0,
            choice_error(args.passphrase, args.passphrase_file).unwrap().1,
        )
    } else if !valid_name(args.name@) {
        failed(4, "name must contain only ASCII letters, digits, '-' or '_'"@)
    } else if total > u32::MAX {
        failed(4, "duration is too large"@)
    } else if !(1 <= total <= 397) {
        failed(4, days_range_message(1, 397, total))
    } else if san_values(args).len() == 0 {
        failed(4, "at least one --san is required"@)
    } else {
        let sans = sorted_set(san_values(args));
        match facts.san_addresses {
            None => StepView::Need(NeedView::SanAddresses(sans)),
            Some(flags) => {
                let addresses = address_flags(sans.len(), flags);
                match san_error(sans, addresses) {
                    Some(v) => failed(4, "invalid SAN: "@ + v),
                    None => if !usages_ok_for_leaf(args.key_usage@) {
                        failed(4, "leaf key usage cannot include key-cert-sign or crl-sign"@)
                    } else {
                        match facts.issuer_files {
                            None => StepView::Need(NeedView::IssuerFiles(candidates_view(dir, args.issuer@))),
                            Some(present) => match resolution(dir, args.issuer@, three_flags(present)) {
                                Err(e) => failed(e.0, e.1),
                                Ok(issuer) => certificate_after_issuer(
                                    dir,
                                    args,
                                    facts,
                                    total,
                                    sans,
                                    addresses,
                                    issuer.0,
                                    issuer.1,
                                ),
                            },
                        }
                    },
                }
            },
        }
    }
}

fn copy_strings(v: &Vec<String>) -> (r: Vec<String>)
    ensures
        r.deep_view() == v.deep_view(),
{
    let mut r: Vec<String> = Vec::new();
    extend_strings(&mut r, v);
    r
}

fn copy_flags(v: &Vec<bool>) -> (r: Vec<bool>)
    ensures
        r@ == v@,
{
    let mut r: Vec<bool> = Vec::new();
    let mut i: usize = 0;
    while i < v.len()
        invariant
            i <= v@.len(),
            r@ == v@.take(i as int),
        decreases v.len() - i,
    {
        r.push(v[i]);
        assert(r@ =~= v@.take(i + 1));
        i = i + 1;
    }
    assert(v@.take(i as int) =~= v@);
    r
}

fn leaf_dir_step(target: &str, part: &str, private: bool) -> (r: Action)
    ensures
        r@ == leaf_dir_action(target@, part@, private),
{
    let path = join_path(target, part);
    let mut prefix = owned("cannot create leaf directory ");
    prefix.append(path.as_str());
    prefix.append(": ");
    Action::CreateDir { path, prefix, private }
}

#[verifier::rlimit(80)]
fn certificate_actions_exec(
    args: &CertArgs,
    profile: Profile,
    subject: &SubjectArgs,
    sans: &Vec<String>,
    addresses: &Vec<bool>,
    target: &str,
    sg: &Signer,
    days: u32,
) -> (r: Vec<Action>)
    requires
        addresses@.len() == sans@.len(),
    ensures
        actions_view(r@) == certificate_actions(
            *args,
            profile,
            subject@,
            sans.deep_view(),
            addresses@,
            target@,
            sg@,
            days as nat,
        ),
{
    let key = join_path(target, "private/key.pem");
    let csr = join_path(target, "csr/request.csr.pem");
    let cert = join_path(target, "certs/cert.pem");
    let ext = join_path(target, "config/leaf-ext.cnf");
    let issuer_pass = issuer_passphrase_of(&args.issuer_passphrase_file, sg.cert.as_str());
    let choice = passphrase_choice(&args.passphrase, &args.passphrase_file);
    let leaf_pass = leaf_passphrase_of(&choice, target);
    let leaf_source = source_of(&leaf_pass);
    let mut issuer_source = owned("file:");
    issuer_source.append(issuer_pass.as_str());
    let mut key_prefix = owned("cannot generate leaf key ");
    key_prefix.append(key.as_str());
    key_prefix.append(": ");
    let cleanup = Some(owned(target));
    let mut chain: Vec<String> = Vec::new();
    extend_strings(&mut chain, &sg.chain);
    let r = vec![
        leaf_dir_step(target, "private", true),
        leaf_dir_step(target, "csr", false),
        leaf_dir_step(target, "certs", false),
        leaf_dir_step(target, "chain", false),
        leaf_dir_step(target, "config", false),
        Action::StorePassphrase {
            source: choice,
            store: join_path(target, "private/passphrase"),
            copy_supplied: false,
        },
        key_step(profile, key.as_str(), as_str_opt(&leaf_pass), key_prefix.as_str(), &cleanup),
        Action::RunOpenssl {
            args: csr_command(key.as_str(), as_str_opt(&leaf_source), subject, csr.as_str()),
            prefix: String::new(),
            cleanup: None,
            restrict: None,
        },
        Action::WriteFile {
            path: ext.clone(),
            contents: leaf_extension(sans, addresses, args.key_usage.as_slice()),
            create_parent: false,
            cleanup: Some(owned(target)),
        },
        Action::RunOpenssl {
            args: sign_command(
                csr.as_str(),
                sg.cert.as_str(),
                sg.key.as_str(),
                issuer_source.as_str(),
                days,
                sg.serial.as_str(),
                ext.as_str(),
                cert.as_str(),
            ),
            prefix: String::new(),
            cleanup: None,
            restrict: None,
        },
        Action::VerifySans {
            cert: cert.clone(),
            sans: copy_strings(sans),
            addresses: copy_flags(addresses),
            cleanup: Some(owned(target)),
        },
        Action::ReplaceFile { path: sg.serial_file.clone(), contents: sg.next.clone() },
        Action::WriteChain {
            sources: chain,
            cert,
            issuer_chain: join_path(target, "chain/issuer-chain.pem"),
            full_chain: join_path(target, "chain/fullchain.pem"),
            required: true,
        },
    ];
    proof {
        let expected = certificate_actions(
            *args,
            profile,
            subject@,
            sans.deep_view(),
            addresses@,
            target@,
            sg@,
            days as nat,
        );
        assert(r@[0]@ == expected[0]);
        assert(r@[1]@ == expected[1]);
        assert(r@[2]@ == expected[2]);
        assert(r@[3]@ == expected[3]);
        assert(r@[4]@ == expected[4]);
        assert(r@[5]@ == expected[5]);
        assert(r@[6]@ == expected[6]);
        assert(r@[7]@ == expected[7]);
        assert(r@[8]@ == expected[8]);
        assert(r@[9]@ == expected[9]);
        assert(r@[10]@ == expected[10]);
        assert(r@[11]@ == expected[11]);
        assert(r@[12]@ == expected[12]);
        assert(actions_view(r@) =~= expected);
    }
    r
}

fn plan_certificate(
    dir: &str,
    args: &CertArgs,
    profile: Profile,
    subject: &SubjectArgs,
    sans: &Vec<String>,
    addresses: &Vec<bool>,
    target: &str,
    sg: &Signer,
    days: u32,
) -> (r: Plan)
    requires
        addresses@.len() == sans@.len(),
    ensures
        r@ == certificate_plan(
            dir@,
            *args,
            profile,
            subject@,
            sans.deep_view(),
            addresses@,
            target@,
            sg@,
            days as nat,
        ),
{
    let relative = relative_path(dir, target);
    let key = join_path(target, "private/key.pem");
    let csr = join_path(target, "csr/request.csr.pem");
    let cert = join_path(target, "certs/cert.pem");
    let ext = join_path(target, "config/leaf-ext.cnf");
    if !args.do_it {
        let planned_commands = certificate_command_plan(
            profile,
            key.as_str(),
            csr.as_str(),
            cert.as_str(),
            sg.cert.as_str(),
            sg.key.as_str(),
            ext.as_str(),
            subject,
            days,
            sg.serial.as_str(),
            encrypts_key(&args.passphrase, &args.passphrase_file),
        );
        let planned_artifacts = certificate_artifact_plan(dir, target, writes_new(&args.passphrase, &args.passphrase_file));
        let mut message = owned("dry-run: certificate would be created for ");
        let d = decimal_string(days as u64);
        message.append(d.as_str());
        message.append(" days");
        let mut report = success_with_path(message.as_str(), true, relative);
        report.planned_commands = planned_commands;
        report.planned_artifacts = planned_artifacts;
        let plan = Plan { report, actions: Vec::new() };
        assert(plan@.actions =~= Seq::<ActionView>::empty());
        return plan;
    }
    let actions = certificate_actions_exec(
        args,
        profile,
        subject,
        sans,
        addresses,
        target,
        sg,
        days,
    );
    let mut report = success_with_path("certificate created", false, relative);
    report.paths = certificate_artifact_plan(dir, target, encrypts_key(&args.passphrase, &args.passphrase_file));
    assert(report.planned_commands.deep_view() =~= Seq::<Seq<Seq<char>>>::empty());
    assert(report.planned_artifacts.deep_view() =~= Seq::<Seq<char>>::empty());
    Plan { report, actions }
}

fn leaf_final(
    dir: &str,
    args: &CertArgs,
    facts: &Facts,
    days: u32,
    sans: &Vec<String>,
    addresses: &Vec<bool>,
    issuer: &str,
    home: &str,
    profile: Profile,
    subject: &SubjectArgs,
) -> (r: Step)
    requires
        addresses@.len() == sans@.len(),
    ensures
        r@ == leaf_after_passphrases(
            dir@,
            *args,
            facts@,
            days as nat,
            sans.deep_view(),
            addresses@,
            issuer@,
            home@,
            profile,
            subject@,
        ),
{
    match passphrase_choice(&args.passphrase, &args.passphrase_file) {
        PassphraseChoice::File(p) => match &facts.leaf_passphrase {
            None => {
                return Step::Need(Need::LeafPassphrase(p));
            },
            Some(Err(e)) => {
                return fail_step(e.0, e.1.clone());
            },
            Some(Ok(_)) => {},
        },
        _ => {},
    }
    let target = leaf_directory(dir, profile, args.name.as_str());
    match facts.target_exists {
        None => {
            return Step::Need(Need::TargetExists(target));
        },
        Some(true) => {
            let mut message = owned("target already exists: ");
            message.append(target.as_str());
            return fail_step(5, message);
        },
        Some(false) => {},
    }
    let (serial, next) = match serial_numbers_exec(facts, home, args.do_it) {
        Err(step) => {
            return step;
        },
        Ok(numbers) => numbers,
    };
    let sg = make_signer(issuer, home, args.issuer.as_str(), serial, next);
    Step::Done(
        Ok(plan_certificate(dir, args, profile, subject, sans, addresses, target.as_str(), &sg, days)),
    )
}

fn certificate_with_issuer(
    dir: &str,
    args: &CertArgs,
    facts: &Facts,
    days: u32,
    sans: &Vec<String>,
    addresses: &Vec<bool>,
    issuer: &ResolvedIssuer,
) -> (r: Step)
    requires
        addresses@.len() == sans@.len(),
    ensures
        r@ == certificate_after_issuer(
            dir@,
            *args,
            facts@,
            days as nat,
            sans.deep_view(),
            addresses@,
            issuer.path@,
            issuer.profile,
        ),
{
    let bytes = match &facts.issuer_certificate {
        None => {
            return Step::Need(Need::IssuerCertificate(issuer.path.clone()));
        },
        Some(Err(error)) => {
            return fail_step(6, error.clone());
        },
        Some(Ok(bytes)) => bytes,
    };
    let parent_subject = match read_subject(bytes.as_slice()) {
        Err(e) => {
            return fail_step(e.0, e.1);
        },
        Ok(s) => s,
    };
    let subject = inherited_subject(&parent_subject, &args.subject);
    match validate_subject(&subject) {
        Err(e) => {
            return fail_step(e.0, e.1);
        },
        Ok(()) => {},
    }
    let profile = match pick_profile(args.profile, issuer.profile) {
        Ok(p) => p,
        Err(()) => {
            let requested = args.profile.unwrap();
            return fail_step(4, mismatch_message("certificate", requested, issuer.profile, "issuer"));
        },
    };
    let home = match ca_home_of(issuer.path.as_str()) {
        None => {
            return fail_step(6, owned("cannot determine issuer key path"));
        },
        Some(h) => h,
    };
    let issuer_key = join_path(home.as_str(), "private/ca.key.pem");
    match facts.issuer_key {
        None => {
            return Step::Need(Need::IssuerKey(issuer_key));
        },
        Some(false) => {
            let mut message = owned("issuer private key does not exist: ");
            message.append(issuer_key.as_str());
            return fail_step(4, message);
        },
        Some(true) => {},
    }
    let issuer_pass = issuer_passphrase_of(&args.issuer_passphrase_file, issuer.path.as_str());
    match &facts.issuer_passphrase {
        None => {
            return Step::Need(Need::IssuerPassphrase(issuer_pass));
        },
        Some(Err(e)) => {
            let mut message = owned("cannot read issuer passphrase file: ");
            message.append(e.1.as_str());
            return fail_step(4, message);
        },
        Some(Ok(_)) => {},
    }
    leaf_final(
        dir,
        args,
        facts,
        days,
        sans,
        addresses,
        issuer.path.as_str(),
        home.as_str(),
        profile,
        &subject,
    )
}

/// Decides the next step of creating a leaf certificate from the options and the facts
/// gathered so far; a dry run plans without actions, and an existing target is never
/// overwritten.
pub fn create_certificate(dir: &str, args: &CertArgs, facts: &Facts) -> (r: Step)
    ensures
        r@ == certificate_step(dir@, *args, facts@),
{
    match check_passphrase_options(&args.passphrase, &args.passphrase_file) {
        Err(e) => {
            return fail_step(e.0, e.1);
        },
        Ok(()) => {},
    }
    match validate_name(args.name.as_str()) {
        Err(e) => {
            return fail_step(e.0, e.1);
        },
        Ok(()) => {},
    }
    let days = match normalized_days(&args.days, 1, 397) {
        Err(e) => {
            return fail_step(e.0, e.1);
        },
        Ok(days) => days,
    };
    let sans = match normalize_sans(args) {
        Err(e) => {
            return fail_step(e.0, e.1);
        },
        Ok(sans) => sans,
    };
    let addresses = match &facts.san_addresses {
        None => {
            return Step::Need(Need::SanAddresses(sans));
        },
        Some(flags) => flags_for(sans.len(), flags),
    };
    match check_sans(&sans, &addresses) {
        Err(e) => {
            return fail_step(e.0, e.1);
        },
        Ok(()) => {},
    }
    match validate_key_usages(args.key_usage.as_slice(), false) {
        Err(e) => {
            return fail_step(e.0, e.1);
        },
        Ok(()) => {},
    }
    let present = match &facts.issuer_files {
        None => {
            return ask_issuer_files(dir, args.issuer.as_str());
        },
        Some(flags) => three(flags),
    };
    let issuer = match resolve_issuer(dir, args.issuer.as_str(), present.as_slice()) {
        Err(e) => {
            return fail_step(e.0, e.1);
        },
        Ok(issuer) => issuer,
    };
    certificate_with_issuer(dir, args, facts, days, &sans, &addresses, &issuer)
}

} // verus!
