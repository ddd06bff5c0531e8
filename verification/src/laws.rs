//! What holds of every operation: dry runs change nothing, existing targets and names in use
//! are never taken over, a child CA stays within its parent, serial numbers are never handed
//! out twice, passphrase values never shape a plan, sensitive contents, secrets and OpenSSL
//! output are never displayed, and a lifetime written out is read back as it was.
use vstd::prelude::*;
use crate::create::{
    intermediate_within_parent, intermediate_actions,
    leaf_after_passphrases, serial_numbers, signer, SignerView, certificate_actions,
    certificate_step, failed, intermediate_step, root_checks, root_step, CertArgs, IntermediateArgs,
    intermediate_checks, serial_value, path_len_fits, child_path_len,
};
use crate::certificate::{pem_not_after, pem_path_len};
use crate::secret::trim_line_ends;
use crate::model::parse_u32;
use crate::display::{content_lines, created_entry, run_lines, sensitive};
use crate::layout::{any_true, ca_dir, path_join};
use crate::model::{all_digits, digits_value, parse_duration, CertificateDuration, DurationUnit};
use crate::ops::{ActionView, FactsView, PlanView, StepView};
use crate::layout::{ca_home, extension_path, leaf_dir};
use crate::rules::{name_char, valid_name};
use crate::model::Profile;
use crate::subject::SubjectView;
use crate::plans::{artifact, with_program, RootArgs};
use crate::create::{certificate_artifacts, intermediate_artifacts, root_artifacts};
use crate::layout::{clean_path, lemma_below_join, path_below};
use crate::model::profile_name;
use crate::report::CommandReport;
use crate::redact::{passphrase_option, secret_argument, shown_arguments};
use crate::text::{contains, decimal, digit_char, ends_with, is_digit, occurs_at, starts_with};

verus! {

/// A create step that ends in a plan follows the `do_it` flag: without it the report is a
/// dry run and there is nothing to carry out.
pub open spec fn plan_follows_flag(step: StepView, do_it: bool) -> bool {
    step matches StepView::Plan(p) ==> p.report.dry_run == !do_it && (!do_it ==> p.actions.len()
        == 0)
}

/// Creating a root CA is a dry run unless asked for: without `do_it` its plan has no action.
pub proof fn law_root_dry_run(dir: Seq<char>, args: RootArgs, facts: FactsView)
    ensures
        plan_follows_flag(root_step(dir, args, facts), args.do_it),
{
}

/// Creating an intermediate CA is a dry run unless asked for: without `do_it` its plan has
/// no action.
#[verifier::rlimit(40)]
pub proof fn law_intermediate_dry_run(dir: Seq<char>, args: IntermediateArgs, facts: FactsView)
    ensures
        plan_follows_flag(intermediate_step(dir, args, facts), args.do_it),
{
}

/// Creating a certificate is a dry run unless asked for: without `do_it` its plan has no
/// action.
#[verifier::rlimit(40)]
pub proof fn law_certificate_dry_run(dir: Seq<char>, args: CertArgs, facts: FactsView)
    ensures
        plan_follows_flag(certificate_step(dir, args, facts), args.do_it),
{
}

/// Existing targets are never overwritten: a root CA is planned only once its target is
/// known not to exist, and an existing target fails with code 5.
pub proof fn law_root_never_overwrites(dir: Seq<char>, args: RootArgs, facts: FactsView)
    ensures
        root_step(dir, args, facts) is Plan ==> facts.target_exists == Some(false),
        facts.target_exists == Some(true) ==> !(root_step(dir, args, facts) is Plan),
        (facts.names_in_use matches Some(u) && !any_true(u) && root_checks(args) is Ok
            && facts.target_exists == Some(true)) ==> root_step(dir, args, facts) == failed(
            5,
            "target already exists: "@ + ca_dir(dir, args.profile, "root"@, args.name@),
        ),
{
}

/// Existing targets are never overwritten: an intermediate CA is planned only once its
/// target is known not to exist.
#[verifier::rlimit(40)]
pub proof fn law_intermediate_never_overwrites(
    dir: Seq<char>,
    args: IntermediateArgs,
    facts: FactsView,
)
    ensures
        intermediate_step(dir, args, facts) is Plan ==> facts.target_exists == Some(false),
{
}

/// Existing targets are never overwritten: a certificate is planned only once its target
/// is known not to exist.
#[verifier::rlimit(40)]
pub proof fn law_certificate_never_overwrites(dir: Seq<char>, args: CertArgs, facts: FactsView)
    ensures
        certificate_step(dir, args, facts) is Plan ==> facts.target_exists == Some(false),
{
    assert forall|
        days: nat,
        sans: Seq<Seq<char>>,
        addresses: Seq<bool>,
        issuer: Seq<char>,
        home: Seq<char>,
        profile: Profile,
        subject: SubjectView,
    |
        #[trigger] leaf_after_passphrases(
            dir,
            args,
            facts,
            days,
            sans,
            addresses,
            issuer,
            home,
            profile,
            subject,
        ) is Plan implies facts.target_exists == Some(false) by {}
}

/// CA names are unique: a root CA is planned only when no CA of any profile uses its name,
/// and a name in use fails with code 5 once the options are valid.
pub proof fn law_root_name_unique(dir: Seq<char>, args: RootArgs, facts: FactsView)
    ensures
        root_step(dir, args, facts) is Plan ==> (facts.names_in_use matches Some(u) && !any_true(
            u,
        )),
        (facts.names_in_use matches Some(u) && any_true(u) && root_checks(args) is Ok)
            ==> root_step(dir, args, facts) == failed(5, "CA name is already in use: "@ + args.name@),
{
}

/// CA names are unique: an intermediate CA is planned only when no CA of any profile uses
/// its name, and a name in use fails with code 5 once the options are valid.
#[verifier::rlimit(40)]
pub proof fn law_intermediate_name_unique(dir: Seq<char>, args: IntermediateArgs, facts: FactsView)
    ensures
        intermediate_step(dir, args, facts) is Plan ==> (facts.names_in_use matches Some(u)
            && !any_true(u)),
        (facts.names_in_use matches Some(u) && any_true(u) && intermediate_checks(args) is Ok)
            ==> intermediate_step(dir, args, facts) == failed(
            5,
            "CA name is already in use: "@ + args.name@,
        ),
{
}

/// A child CA stays within its parent: an intermediate CA is planned only when its
/// lifetime, counted from the current time, ends no later than the parent certificate, and
/// its path length (0 when not given) is lower than the parent's constraint.
#[verifier::rlimit(40)]
pub proof fn law_intermediate_within_parent(dir: Seq<char>, args: IntermediateArgs, facts: FactsView)
    ensures
        intermediate_step(dir, args, facts) is Plan ==> (facts.now matches Some(now)
            && (facts.issuer_certificate matches Some(Ok(bytes)) && (pem_not_after(bytes) matches Some(
            expiry,
        ) && (intermediate_checks(args) matches Ok(days) && (now + days * 86400 <= expiry && (
        pem_path_len(bytes) matches Some(limit) && path_len_fits(child_path_len(args), limit))))))),
{
}

/// A serial number is never handed out twice: the serial file written back after a
/// signature holds the next number, which differs from the one just used, and is read
/// back as that number while one more is left after it.
pub proof fn law_serial_advances(contents: Seq<char>, v: u32)
    requires
        serial_value(contents) == Some(v),
    ensures
        decimal((v + 1) as nat) != decimal(v as nat),
        serial_value(decimal((v + 1) as nat) + "\n"@) == if v + 1 < u32::MAX {
            Some((v + 1) as u32)
        } else {
            None::<u32>
        },
{
    reveal_strlit("\n");
    let n: nat = (v + 1) as nat;
    lemma_decimal_digits(n);
    lemma_decimal_digits(v as nat);
    let t = decimal(n);
    let line = t + "\n"@;
    assert(line.drop_last() =~= t);
    assert(line.last() == '\n');
    assert(is_digit(t.last()));
    assert(trim_line_ends(line) == trim_line_ends(t));
    assert(trim_line_ends(t) == t);
    assert(is_digit(t[0]));
    assert(parse_u32(t) == if n <= u32::MAX { Some(n as u32) } else { None::<u32> });
}

/// The serial number an executed leaf plan signs with.
pub open spec fn leaf_signed_serial(p: PlanView) -> Seq<char> {
    match p.actions[9] {
        ActionView::RunOpenssl { args, .. } => args[13],
        _ => Seq::empty(),
    }
}

/// What an executed leaf plan writes back into its issuer's serial file.
pub open spec fn leaf_written_serial(p: PlanView) -> Seq<char> {
    match p.actions[11] {
        ActionView::ReplaceFile { contents, .. } => contents,
        _ => Seq::empty(),
    }
}

/// Two leaves never share a serial number: when a second executed leaf step reads the
/// serial file that a first one wrote, it signs with a different serial number (the next
/// one).
pub proof fn law_leaf_serials_never_repeat(
    dir: Seq<char>,
    first: CertArgs,
    f: FactsView,
    p: PlanView,
    second: CertArgs,
    g: FactsView,
    q: PlanView,
)
    requires
        certificate_step(dir, first, f) == StepView::Plan(p),
        first.do_it,
        certificate_step(dir, second, g) == StepView::Plan(q),
        second.do_it,
        g.issuer_serial == Some(Ok::<Seq<char>, Seq<char>>(leaf_written_serial(p))),
    ensures
        leaf_signed_serial(q) != leaf_signed_serial(p),
{
    law_leaf_signature_bookkeeping(dir, first, f);
    law_leaf_signature_bookkeeping(dir, second, g);
    let v = serial_value(f.issuer_serial.unwrap()->Ok_0).unwrap();
    law_serial_advances(f.issuer_serial.unwrap()->Ok_0, v);
    assert(leaf_written_serial(p) == decimal((v + 1) as nat) + "\n"@);
    assert(leaf_signed_serial(p) == decimal(v as nat));
    let w = serial_value(leaf_written_serial(p)).unwrap();
    assert(w == v + 1);
    assert(leaf_signed_serial(q) == decimal(w as nat));
}

/// An executed leaf plan keeps the issuer's books: it signs with the serial number that the
/// issuer's serial file holds and then writes the next one back into that file, and its
/// chain files are made from nothing when the issuer is a root.
#[verifier::rlimit(40)]
pub proof fn law_leaf_signature_bookkeeping(dir: Seq<char>, args: CertArgs, facts: FactsView)
    ensures
        step_books_kept(certificate_step(dir, args, facts), facts, args),
{
    lemma_leaf_final_books(dir, args, facts);
}

/// An executed plan of a leaf step keeps the issuer's books.
pub open spec fn step_books_kept(step: StepView, facts: FactsView, args: CertArgs) -> bool {
    step matches StepView::Plan(p) ==> (args.do_it ==> books_kept(p, facts, args))
}

/// What `law_leaf_signature_bookkeeping` promises of a plan.
pub open spec fn books_kept(p: PlanView, facts: FactsView, args: CertArgs) -> bool {
    facts.issuer_serial matches Some(Ok(t)) && (serial_value(t) matches Some(v) && leaf_books_kept(
        p.actions,
        v,
        !starts_with(args.issuer@, "intermediate:"@),
    ))
}

#[verifier::rlimit(60)]
proof fn lemma_leaf_final_books(dir: Seq<char>, args: CertArgs, facts: FactsView)
    ensures
        forall|
            days: nat,
            sans: Seq<Seq<char>>,
            addresses: Seq<bool>,
            issuer: Seq<char>,
            home: Seq<char>,
            profile: Profile,
            subject: SubjectView,
        |
            step_books_kept(
                #[trigger] leaf_after_passphrases(
                    dir,
                    args,
                    facts,
                    days,
                    sans,
                    addresses,
                    issuer,
                    home,
                    profile,
                    subject,
                ),
                facts,
                args,
            ),
{
    assert forall|
        days: nat,
        sans: Seq<Seq<char>>,
        addresses: Seq<bool>,
        issuer: Seq<char>,
        home: Seq<char>,
        profile: Profile,
        subject: SubjectView,
    |
        step_books_kept(
            #[trigger] leaf_after_passphrases(
                dir,
                args,
                facts,
                days,
                sans,
                addresses,
                issuer,
                home,
                profile,
                subject,
            ),
            facts,
            args,
        ) by {
        if args.do_it {
            match serial_numbers(facts, home, true) {
                Ok(numbers) => {
                    let t = facts.issuer_serial.unwrap()->Ok_0;
                    let v = serial_value(t).unwrap();
                    let sg = signer(issuer, home, args.issuer@, numbers.0, numbers.1);
                    let target = leaf_dir(dir, profile, args.name@);
                    lemma_leaf_actions_books(args, profile, subject, sans, addresses, target, sg, days, v);
                },
                Err(_) => {},
            }
        }
    }
}

proof fn lemma_leaf_actions_books(
    args: CertArgs,
    profile: Profile,
    subject: SubjectView,
    sans: Seq<Seq<char>>,
    addresses: Seq<bool>,
    target: Seq<char>,
    sg: SignerView,
    days: nat,
    v: u32,
)
    requires
        sg.serial == decimal(v as nat),
        sg.next == decimal((v + 1) as nat) + "\n"@,
        !starts_with(args.issuer@, "intermediate:"@) ==> sg.chain.len() == 0,
    ensures
        leaf_books_kept(
            certificate_actions(args, profile, subject, sans, addresses, target, sg, days),
            v,
            !starts_with(args.issuer@, "intermediate:"@),
        ),
{
}

/// An executed intermediate CA plan keeps its parent's books: it signs with the serial
/// number that the parent's serial file holds and then writes the next one back, and its
/// chain files are made from nothing when the parent is a root.
#[verifier::rlimit(40)]
pub proof fn law_intermediate_signature_bookkeeping(
    dir: Seq<char>,
    args: IntermediateArgs,
    facts: FactsView,
)
    ensures
        parent_books_kept(intermediate_step(dir, args, facts), facts, args),
{
    lemma_intermediate_within_books(dir, args, facts);
}

/// An executed plan of an intermediate CA step keeps its parent's books: the serial file of
/// the parent holds a serial `v`, and the plan's actions use it as `intermediate_books_kept`
/// says.
pub open spec fn parent_books_kept(step: StepView, facts: FactsView, args: IntermediateArgs) -> bool {
    step matches StepView::Plan(p) ==> (args.do_it ==> (facts.issuer_serial matches Some(Ok(t)) && (
    serial_value(t) matches Some(v) && intermediate_books_kept(
        p.actions,
        v,
        !starts_with(args.parent@, "intermediate:"@),
    ))))
}

/// The signature, serial update and chain of an executed intermediate CA plan: the
/// signature (the twelfth action) uses serial `v`, the next action writes `v + 1` to the
/// parent's serial file, and the last writes the chains, from no file when `by_root`.
pub open spec fn intermediate_books_kept(actions: Seq<ActionView>, v: u32, by_root: bool) -> bool {
    &&& actions.len() == 16
    &&& actions[11] matches ActionView::RunOpenssl { args, .. } && args.len() == 18 && args[12]
        == "-set_serial"@ && args[13] == decimal(v as nat)
    &&& actions[12] matches ActionView::ReplaceFile { contents, .. } && contents == decimal((v + 1) as nat)
        + "\n"@
    &&& actions[15] matches ActionView::WriteChain { sources, .. } && (by_root ==> sources.len() == 0)
}

proof fn lemma_intermediate_actions_books(
    args: IntermediateArgs,
    profile: Profile,
    subject: SubjectView,
    target: Seq<char>,
    extension: Seq<char>,
    sg: SignerView,
    days: nat,
    v: u32,
)
    requires
        sg.serial == decimal(v as nat),
        sg.next == decimal((v + 1) as nat) + "\n"@,
        !starts_with(args.parent@, "intermediate:"@) ==> sg.chain.len() == 0,
    ensures
        intermediate_books_kept(
            intermediate_actions(args, profile, subject, target, extension, sg, days),
            v,
            !starts_with(args.parent@, "intermediate:"@),
        ),
{
}

proof fn lemma_intermediate_within_books(dir: Seq<char>, args: IntermediateArgs, facts: FactsView)
    ensures
        forall|
            days: nat,
            parent: Seq<char>,
            profile: Profile,
            subject: SubjectView,
            expiry: Option<int>,
            limit: Option<Option<u32>>,
        |
            parent_books_kept(
                #[trigger] intermediate_within_parent(
                    dir,
                    args,
                    facts,
                    days,
                    parent,
                    profile,
                    subject,
                    expiry,
                    limit,
                ),
                facts,
                args,
            ),
{
    assert forall|
        days: nat,
        parent: Seq<char>,
        profile: Profile,
        subject: SubjectView,
        expiry: Option<int>,
        limit: Option<Option<u32>>,
    |
        parent_books_kept(
            #[trigger] intermediate_within_parent(
                dir,
                args,
                facts,
                days,
                parent,
                profile,
                subject,
                expiry,
                limit,
            ),
            facts,
            args,
        ) by {
        if args.do_it {
            match ca_home(parent) {
                Some(home) => match serial_numbers(facts, home, true) {
                    Ok(numbers) => {
                        let v = serial_value(facts.issuer_serial.unwrap()->Ok_0).unwrap();
                        let sg = signer(parent, home, args.parent@, numbers.0, numbers.1);
                        let target = ca_dir(dir, profile, "intermediate"@, args.name@);
                        let ext = extension_path(dir, args.name@);
                        lemma_intermediate_actions_books(args, profile, subject, target, ext, sg, days, v);
                    },
                    Err(_) => {},
                },
                None => {},
            }
        }
    }
}

/// The signature, serial update and chain of an executed leaf plan: the signature (the
/// tenth action) uses serial `v`, once the issued names are checked the signer's serial
/// file is given `v + 1`, and the last action writes the chains, from no file at all when
/// `by_root`.
pub open spec fn leaf_books_kept(actions: Seq<ActionView>, v: u32, by_root: bool) -> bool {
    &&& actions.len() == 13
    &&& actions[9] matches ActionView::RunOpenssl { args, .. } && args.len() == 18 && args[12] == "-set_serial"@
        && args[13] == decimal(v as nat)
    &&& actions[10] is VerifySans
    &&& actions[11] matches ActionView::ReplaceFile { contents, .. } && contents == decimal((v + 1) as nat)
        + "\n"@
    &&& actions[12] matches ActionView::WriteChain { sources, .. } && (by_root ==> sources.len() == 0)
}

/// The OpenSSL arguments of a run action, with the program in front as a plan shows them.
pub open spec fn shown_run(a: ActionView) -> Seq<Seq<char>> {
    match a {
        ActionView::RunOpenssl { args, .. } => with_program(args),
        _ => Seq::empty(),
    }
}

/// An executed root CA runs what its dry run shows: for an ECDSA or Ed25519 key (whose
/// commands carry no passphrase source), the two OpenSSL runs of the executed plan are the
/// two commands that the same options without `--do-it` plan, in order, and the CA database
/// starts empty at serial 1000.
#[verifier::rlimit(40)]
pub proof fn law_root_runs_what_it_plans(dir: Seq<char>, args: RootArgs, facts: FactsView)
    requires
        args.profile != Profile::Rsa4096,
        args.do_it,
    ensures
        root_step(dir, args, facts) matches StepView::Plan(p) ==> (root_step(
            dir,
            RootArgs { do_it: false, ..args },
            facts,
        ) matches StepView::Plan(q) && p.actions.len() == 10 && shown_run(p.actions[5])
            == q.report.planned_commands[0] && shown_run(p.actions[7]) == q.report.planned_commands[1]
            && q.report.planned_commands.len() == 2 && p.actions[8] == (ActionView::WriteFile {
            path: path_join(ca_dir(dir, args.profile, "root"@, args.name@), "index.txt"@),
            contents: Seq::empty(),
            create_parent: false,
            cleanup: None,
        }) && p.actions[9] == (ActionView::WriteFile {
            path: path_join(ca_dir(dir, args.profile, "root"@, args.name@), "serial"@),
            contents: "1000\n"@,
            create_parent: false,
            cleanup: None,
        })),
{
}

/// Two passphrase reads agree but for the value read: both absent, both failed alike, or
/// both read (whatever they hold).
pub open spec fn same_read(
    a: Option<Result<Seq<char>, (u8, Seq<char>)>>,
    b: Option<Result<Seq<char>, (u8, Seq<char>)>>,
) -> bool {
    match (a, b) {
        (Some(Ok(_)), Some(Ok(_))) => true,
        _ => a == b,
    }
}

/// Two sets of facts that differ at most in the passphrase values read.
pub open spec fn differ_in_passphrases(f: FactsView, g: FactsView) -> bool {
    &&& f.names_in_use == g.names_in_use
    &&& f.issuer_files == g.issuer_files
    &&& f.issuer_certificate == g.issuer_certificate
    &&& f.issuer_key == g.issuer_key
    &&& same_read(f.issuer_passphrase, g.issuer_passphrase)
    &&& same_read(f.leaf_passphrase, g.leaf_passphrase)
    &&& f.san_addresses == g.san_addresses
    &&& f.target_exists == g.target_exists
    &&& f.issuer_serial == g.issuer_serial
    &&& f.now == g.now
}

/// Passphrase values never reach a root CA's plan or report.
pub proof fn law_root_ignores_passphrases(dir: Seq<char>, args: RootArgs, f: FactsView, g: FactsView)
    requires
        differ_in_passphrases(f, g),
    ensures
        root_step(dir, args, f) == root_step(dir, args, g),
{
}

/// Passphrase values never reach an intermediate CA's plan or report.
#[verifier::rlimit(40)]
pub proof fn law_intermediate_ignores_passphrases(
    dir: Seq<char>,
    args: IntermediateArgs,
    f: FactsView,
    g: FactsView,
)
    requires
        differ_in_passphrases(f, g),
    ensures
        intermediate_step(dir, args, f) == intermediate_step(dir, args, g),
{
}

/// Passphrase values never reach a certificate's plan or report: only whether each
/// passphrase file could be read matters.
#[verifier::rlimit(40)]
pub proof fn law_certificate_ignores_passphrases(
    dir: Seq<char>,
    args: CertArgs,
    f: FactsView,
    g: FactsView,
)
    requires
        differ_in_passphrases(f, g),
    ensures
        certificate_step(dir, args, f) == certificate_step(dir, args, g),
{
}

/// The contents of a sensitive created file never appear in the display: its entry is the
/// same whether or not its text was read, whatever that text is.
pub proof fn law_sensitive_contents_hidden(
    dir: Seq<char>,
    relative: Seq<char>,
    text: Seq<char>,
    commands: Seq<CommandReport>,
)
    requires
        sensitive(path_join(dir, relative)),
    ensures
        created_entry(dir, relative, Some(Some(text)), commands) == created_entry(
            dir,
            relative,
            Some(None),
            commands,
        ),
{
}

/// Planned keys and passphrase files are always shown as hidden.
pub proof fn law_planned_secrets_hidden(relative: Seq<char>)
    requires
        ends_with(relative, ".key.pem"@) || ends_with(relative, "passphrase"@),
    ensures
        content_lines(relative) == seq!["  contents: hidden; sensitive file"@],
{
}

/// The suffix letter of a lifetime unit.
pub open spec fn unit_letter(u: DurationUnit) -> char {
    match u {
        DurationUnit::Days => 'd',
        DurationUnit::Weeks => 'w',
        DurationUnit::Months => 'm',
        DurationUnit::Years => 'y',
    }
}

proof fn lemma_digit_char(d: nat)
    requires
        d < 10,
    ensures
        is_digit(digit_char(d)),
        digit_char(d) as u32 == 48 + d,
{
}

pub(crate) proof fn lemma_decimal_digits(n: nat)
    ensures
        decimal(n).len() > 0,
        all_digits(decimal(n)),
        digits_value(decimal(n)) == n,
    decreases n,
{
    if n >= 10 {
        lemma_decimal_digits(n / 10);
        let d = decimal(n / 10);
        let c = digit_char(n % 10);
        assert(decimal(n) == d.push(c));
        assert(d.push(c).drop_last() =~= d);
        lemma_digit_char(n % 10);
        assert(digits_value(d.push(c)) == digits_value(d) * 10 + ((c as u32) - 48) as nat);
        vstd::arithmetic::div_mod::lemma_fundamental_div_mod(n as int, 10);
        assert(n == (n / 10) * 10 + n % 10);
        assert forall|i: int| 0 <= i < d.push(c).len() implies is_digit(#[trigger] d.push(c)[i]) by {
            if i < d.len() {
                assert(d.push(c)[i] == d[i]);
            }
        }
    } else {
        lemma_digit_char(n);
        let s = seq![digit_char(n)];
        assert(decimal(n) == s);
        assert(s.drop_last() =~= Seq::<char>::empty());
        assert(digits_value(s) == digits_value(Seq::<char>::empty()) * 10 + ((digit_char(n) as u32) - 48) as nat);
    }
}

/// A lifetime written as a positive amount and a unit letter is read back as that amount
/// of that unit, and a bare amount as that many days.
pub proof fn law_duration_round_trip(amount: u32, unit: DurationUnit)
    requires
        amount > 0,
    ensures
        parse_duration(decimal(amount as nat).push(unit_letter(unit))) == Ok::<
            CertificateDuration,
            Seq<char>,
        >(CertificateDuration { amount, unit }),
        parse_duration(decimal(amount as nat)) == Ok::<CertificateDuration, Seq<char>>(
            CertificateDuration { amount, unit: DurationUnit::Days },
        ),
{
    let t = decimal(amount as nat);
    lemma_decimal_digits(amount as nat);
    assert(t.push(unit_letter(unit)).drop_last() =~= t);
    assert(is_digit(t[0]));
    assert(is_digit(t.last()));
}

/// What an OpenSSL run wrote never reaches the verbose display: two runs that differ only
/// in their output are shown alike.
pub proof fn law_run_output_hidden(c: CommandReport, stdout: String, stderr: String)
    ensures
        run_lines(CommandReport { stdout, stderr, ..c }) == run_lines(c),
{
}

/// Reports never show a passphrase source, a key or passphrase path, or the argument after
/// a passphrase option: each is shown as `<redacted>`.
pub proof fn law_secrets_redacted(dir: Seq<char>, args: Seq<Seq<char>>, i: int)
    requires
        0 <= i < args.len(),
        secret_argument(args[i]) || (i > 0 && passphrase_option(args[i - 1])),
    ensures
        shown_arguments(dir, args)[i] == "<redacted>"@,
{
}

/// The files inside a target directory that the artifact plans of root CAs, intermediate
/// CAs and leaf certificates list.
pub open spec fn planned_parts() -> Seq<Seq<char>> {
    seq![
        "private/ca.key.pem"@,
        "private/ca.passphrase"@,
        "private/key.pem"@,
        "private/passphrase"@,
        "certs/ca.cert.pem"@,
        "certs/cert.pem"@,
        "csr/ca.csr.pem"@,
        "csr/request.csr.pem"@,
        "config/ca.ext"@,
        "config/leaf-ext.cnf"@,
        "chain/issuer-chain.pem"@,
        "chain/fullchain.pem"@,
        "index.txt"@,
        "serial"@,
    ]
}

/// A directory in which `/private/` occurs only inside the planned files: no component of
/// it is named `private`, except perhaps its first.
pub open spec fn plain_dir(t: Seq<char>) -> bool {
    &&& t.len() > 0
    &&& t.last() != '/'
    &&& !contains(t, "/private/"@)
    &&& !ends_with(t, "/private"@)
}

proof fn lemma_join_parts(t: Seq<char>, part: Seq<char>)
    requires
        t.len() > 0,
        t.last() != '/',
        part.len() > 0,
        part[0] != '/',
    ensures
        path_join(t, part) == t + "/"@ + part,
        path_join(t, part).len() == t.len() + 1 + part.len(),
        forall|j: int| 0 <= j < t.len() ==> path_join(t, part)[j] == t[j],
        path_join(t, part)[t.len() as int] == '/',
        forall|j: int| 0 <= j < part.len() ==> path_join(t, part)[t.len() + 1 + j] == part[j],
{
    reveal_strlit("/");
}

proof fn lemma_join_no_private(t: Seq<char>, part: Seq<char>)
    requires
        plain_dir(t),
        part.len() > 0,
        part[0] != '/',
        !part.contains('v'),
    ensures
        !contains(path_join(t, part), "/private/"@),
{
    reveal_strlit("/private/");
    reveal_strlit("/private");
    lemma_join_parts(t, part);
    let s = path_join(t, part);
    let pat = "/private/"@;
    let l = t.len() as int;
    assert forall|i: int| !occurs_at(s, pat, i) by {
        if occurs_at(s, pat, i) {
            assert(s.subrange(i, i + 9) == pat);
            if i + 9 <= l {
                assert(t.subrange(i, i + 9) =~= s.subrange(i, i + 9));
                assert(occurs_at(t, pat, i));
            } else if i >= l + 1 {
                assert(s[i + 4] == pat[4]);
                assert(part[i + 4 - l - 1] == 'v');
                assert(part.contains('v'));
            } else if i == l {
                assert(s[i + 4] == pat[4]);
                assert(part[3] == 'v');
                assert(part.contains('v'));
            } else if i == l - 8 {
                assert(t.subrange(l - 8, l) =~= s.subrange(i, i + 8));
                assert(s.subrange(i, i + 8) =~= pat.subrange(0, 8));
                assert(pat.subrange(0, 8) =~= "/private"@);
                assert(ends_with(t, "/private"@));
            } else {
                assert(s[l] == pat[l - i]);
            }
        }
    }
}

proof fn lemma_join_private(t: Seq<char>, part: Seq<char>)
    requires
        t.len() > 0,
        t.last() != '/',
        starts_with(part, "private/"@),
    ensures
        contains(path_join(t, part), "/private/"@),
{
    reveal_strlit("/private/");
    reveal_strlit("private/");
    assert(part.subrange(0, 8)[0] == part[0]);
    lemma_join_parts(t, part);
    let s = path_join(t, part);
    let l = t.len() as int;
    assert forall|j: int| 0 <= j < 8 implies part[j] == "private/"@[j] by {
        assert(part.subrange(0, 8)[j] == part[j]);
    }
    assert(s.subrange(l, l + 9) =~= "/private/"@);
    assert(occurs_at(s, "/private/"@, l));
}

proof fn lemma_join_ends(t: Seq<char>, part: Seq<char>, x: Seq<char>)
    requires
        t.len() > 0,
        t.last() != '/',
        part.len() > 0,
        part[0] != '/',
        x.len() > 0,
    ensures
        x.len() <= part.len() ==> (ends_with(path_join(t, part), x) == ends_with(part, x)),
        part.last() != x.last() ==> !ends_with(path_join(t, part), x) && !ends_with(part, x),
{
    lemma_join_parts(t, part);
    let s = path_join(t, part);
    if x.len() <= part.len() {
        assert(s.subrange(s.len() - x.len(), s.len() as int) =~= part.subrange(
            part.len() - x.len(),
            part.len() as int,
        ));
    }
    if part.last() != x.last() {
        if ends_with(s, x) {
            assert(s.subrange(s.len() - x.len(), s.len() as int).last() == s.last());
        }
        if ends_with(part, x) {
            assert(part.subrange(part.len() - x.len(), part.len() as int).last() == part.last());
        }
    }
}

/// Every planned key and passphrase file is hidden in displays, and every other planned
/// file (certificates, requests, extension files, chains, `index.txt`, `serial`) is shown:
/// in a target directory with no `private` component, a planned file is sensitive exactly
/// when its name ends in `key.pem` or `passphrase`.
pub proof fn law_planned_artifact_sensitivity(target: Seq<char>, part: Seq<char>)
    requires
        plain_dir(target),
        planned_parts().contains(part),
    ensures
        sensitive(path_join(target, part)) == (ends_with(part, "key.pem"@) || ends_with(
            part,
            "passphrase"@,
        )),
{
    reveal_strlit("key.pem");
    reveal_strlit(".key.pem");
    reveal_strlit("passphrase");
    reveal_strlit("private/");
    reveal_strlit("private/ca.key.pem");
    reveal_strlit("private/ca.passphrase");
    reveal_strlit("private/key.pem");
    reveal_strlit("private/passphrase");
    reveal_strlit("certs/ca.cert.pem");
    reveal_strlit("certs/cert.pem");
    reveal_strlit("csr/ca.csr.pem");
    reveal_strlit("csr/request.csr.pem");
    reveal_strlit("config/ca.ext");
    reveal_strlit("config/leaf-ext.cnf");
    reveal_strlit("chain/issuer-chain.pem");
    reveal_strlit("chain/fullchain.pem");
    reveal_strlit("index.txt");
    reveal_strlit("serial");
    let k = choose|k: int| 0 <= k < planned_parts().len() && planned_parts()[k] == part;
    assert(part.len() > 0 && part[0] != '/');
    lemma_join_ends(target, part, ".key.pem"@);
    lemma_join_ends(target, part, "passphrase"@);
    lemma_join_ends(target, part, "key.pem"@);
    if k < 4 {
        assert(part.subrange(0, 8) =~= "private/"@);
        lemma_join_private(target, part);
        if k == 0 {
            assert(part.subrange(part.len() - 7, part.len() as int) =~= "key.pem"@);
        } else if k == 1 {
            assert(part.subrange(part.len() - 10, part.len() as int) =~= "passphrase"@);
        } else if k == 2 {
            assert(part.subrange(part.len() - 7, part.len() as int) =~= "key.pem"@);
        } else {
            assert(part.subrange(part.len() - 10, part.len() as int) =~= "passphrase"@);
        }
    } else {
        assert(!part.contains('v'));
        lemma_join_no_private(target, part);
        if part.len() >= 10 {
            assert(part.subrange(part.len() - 10, part.len() as int) != "passphrase"@) by {
                if part.subrange(part.len() - 10, part.len() as int) =~= "passphrase"@ {
                    assert(part.subrange(part.len() - 10, part.len() as int)[4] == 'p');
                }
            }
        }
        if part.len() >= 7 {
            assert(part.subrange(part.len() - 7, part.len() as int) != "key.pem"@) by {
                if part.subrange(part.len() - 7, part.len() as int) =~= "key.pem"@ {
                    assert(part.subrange(part.len() - 7, part.len() as int)[0] == 'k');
                }
            }
        }
        if part.len() >= 8 {
            assert(part.subrange(part.len() - 8, part.len() as int) != ".key.pem"@) by {
                if part.subrange(part.len() - 8, part.len() as int) =~= ".key.pem"@ {
                    assert(part.subrange(part.len() - 8, part.len() as int)[1] == 'k');
                }
            }
        }
    }
}

proof fn lemma_join_no_private_name(t: Seq<char>, name: Seq<char>)
    requires
        plain_dir(t),
        valid_name(name),
    ensures
        !contains(path_join(t, name), "/private/"@),
{
    reveal_strlit("/private/");
    reveal_strlit("/private");
    assert(name_char(name[0]));
    lemma_join_parts(t, name);
    let s = path_join(t, name);
    let pat = "/private/"@;
    let l = t.len() as int;
    assert forall|i: int| !occurs_at(s, pat, i) by {
        if occurs_at(s, pat, i) {
            assert(s.subrange(i, i + 9) == pat);
            if i + 9 <= l {
                assert(t.subrange(i, i + 9) =~= s.subrange(i, i + 9));
                assert(occurs_at(t, pat, i));
            } else if i >= l + 1 {
                assert(s[i + 8] == pat[8]);
                assert(name_char(name[i + 8 - l - 1]));
            } else if i == l {
                assert(s[i + 8] == pat[8]);
                assert(name_char(name[7]));
            } else if i == l - 8 {
                assert(t.subrange(l - 8, l) =~= s.subrange(i, i + 8));
                assert(s.subrange(i, i + 8) =~= pat.subrange(0, 8));
                assert(pat.subrange(0, 8) =~= "/private"@);
                assert(ends_with(t, "/private"@));
            } else {
                assert(s[l] == pat[l - i]);
            }
        }
    }
}

proof fn lemma_join_name_ends(t: Seq<char>, name: Seq<char>, x: Seq<char>)
    requires
        t.len() > 0,
        t.last() != '/',
        valid_name(name),
        x.len() > 0,
        !x.contains('/'),
    ensures
        ends_with(path_join(t, name), x) == ends_with(name, x),
{
    assert(name_char(name[0]));
    lemma_join_parts(t, name);
    lemma_join_ends(t, name, x);
    let s = path_join(t, name);
    if x.len() > name.len() && ends_with(s, x) {
        let k = x.len() - name.len() - 1;
        assert(s.subrange(s.len() - x.len(), s.len() as int)[k] == s[t.len() as int]);
        assert(x[k] == '/');
    }
}

/// An intermediate CA's extension file is shown, not hidden, unless its name ends in
/// `passphrase`: in a PKI directory with no `private` component, the file
/// `<dir>/.pki-intermediate-ext/<name>` of a valid name is sensitive exactly when the name
/// ends in `passphrase`.
pub proof fn law_extension_file_sensitivity(dir: Seq<char>, name: Seq<char>)
    requires
        plain_dir(dir),
        valid_name(name),
    ensures
        sensitive(extension_path(dir, name)) == ends_with(name, "passphrase"@),
{
    reveal_strlit(".pki-intermediate-ext");
    reveal_strlit("/private");
    reveal_strlit(".key.pem");
    reveal_strlit("passphrase");
    let ext = ".pki-intermediate-ext"@;
    assert(!ext.contains('v'));
    lemma_join_no_private(dir, ext);
    lemma_join_parts(dir, ext);
    let t = path_join(dir, ext);
    lemma_join_ends(dir, ext, "/private"@);
    assert(!ends_with(ext, "/private"@)) by {
        if ends_with(ext, "/private"@) {
            assert(ext.subrange(ext.len() - 8, ext.len() as int)[0] == ext[13]);
        }
    }
    assert(plain_dir(t));
    lemma_join_no_private_name(t, name);
    assert(!".key.pem"@.contains('/'));
    assert(!"passphrase"@.contains('/'));
    lemma_join_name_ends(t, name, ".key.pem"@);
    lemma_join_name_ends(t, name, "passphrase"@);
    if ends_with(name, ".key.pem"@) {
        assert(name.subrange(name.len() - 8, name.len() as int)[0] == name[name.len() - 8]);
        assert(name_char(name[name.len() - 8]));
    }
}

/// The contents of the file `r`, a path relative to `dir`, stay hidden exactly when its name
/// ends in `key.pem` or `passphrase`.
pub open spec fn hidden_by_name(dir: Seq<char>, r: Seq<char>) -> bool {
    sensitive(path_join(dir, r)) == (ends_with(r, "key.pem"@) || ends_with(r, "passphrase"@))
}

proof fn lemma_clean_join(a: Seq<char>, b: Seq<char>)
    requires
        clean_path(a),
        clean_path(b),
        a.len() > 0,
        b.len() > 0,
        b[0] != '/',
    ensures
        path_join(a, b) == a + "/"@ + b,
        clean_path(a + "/"@ + b),
{
    reveal_strlit("/");
    assert(a.last() != '/');
    let s = a + "/"@ + b;
    let l = a.len() as int;
    assert(s[l] == '/');
    assert forall|i: int| 0 <= i < s.len() && #[trigger] s[i] == '/' implies i + 1 < s.len() && s[i + 1] != '/' by {
        if i < l {
            assert(s[i] == a[i]);
            if i + 1 < l {
                assert(s[i + 1] == a[i + 1]);
            }
        } else if i > l {
            assert(s[i] == b[i - l - 1]);
            if i + 1 < s.len() {
                assert(s[i + 1] == b[i - l]);
            }
        } else {
            assert(s[i + 1] == b[0]);
        }
    }
    assert forall|i: int| 0 <= i < s.len() && #[trigger] s[i] == '.' && (i == 0 || s[i - 1] == '/') implies i + 1
        < s.len() && s[i + 1] != '/' by {
        if i < l {
            assert(s[i] == a[i]);
            if i > 0 {
                assert(s[i - 1] == a[i - 1]);
            }
            if i + 1 < l {
                assert(s[i + 1] == a[i + 1]);
            }
        } else if i > l {
            assert(s[i] == b[i - l - 1]);
            if i > l + 1 {
                assert(s[i - 1] == b[i - l - 2]);
            }
            if i + 1 < s.len() {
                assert(s[i + 1] == b[i - l]);
            }
        }
    }
}

proof fn lemma_name_clean(n: Seq<char>)
    requires
        valid_name(n),
    ensures
        clean_path(n),
        n[0] != '/',
{
    assert(name_char(n[0]));
    assert forall|i: int| 0 <= i < n.len() implies #[trigger] n[i] != '/' && n[i] != '.' by {
        assert(name_char(n[i]));
    }
}

proof fn lemma_plain_join(t: Seq<char>, n: Seq<char>)
    requires
        plain_dir(t),
        valid_name(n),
        n != "private"@,
    ensures
        plain_dir(path_join(t, n)),
{
    reveal_strlit("/private");
    reveal_strlit("private");
    lemma_join_no_private_name(t, n);
    assert(name_char(n[0]));
    lemma_join_parts(t, n);
    let s = path_join(t, n);
    let x = "/private"@;
    assert(s.last() == n.last());
    assert(name_char(n[n.len() - 1]));
    if ends_with(s, x) {
        let u = s.subrange(s.len() - 8, s.len() as int);
        assert(u == x);
        if n.len() >= 8 {
            assert(u[0] == n[n.len() - 8]);
            assert(name_char(n[n.len() - 8]));
        } else if n.len() == 7 {
            assert forall|j: int| 0 <= j < 7 implies n[j] == "private"@[j] by {
                assert(u[j + 1] == n[j]);
                assert(x[j + 1] == "private"@[j]);
            }
            assert(n =~= "private"@);
        } else {
            let j = 7 - n.len();
            assert(u[j] == s[t.len() as int]);
            assert(x[j] != '/');
        }
    }
}

proof fn lemma_extend_rel(dir: Seq<char>, rel: Seq<char>, n: Seq<char>)
    requires
        clean_path(dir),
        plain_dir(dir),
        clean_path(rel),
        rel.len() > 0,
        rel[0] != '/',
        plain_dir(path_join(dir, rel)),
        valid_name(n),
        n != "private"@,
    ensures
        path_join(path_join(dir, rel), n) == path_join(dir, rel + "/"@ + n),
        clean_path(rel + "/"@ + n),
        (rel + "/"@ + n)[0] != '/',
        plain_dir(path_join(path_join(dir, rel), n)),
{
    lemma_name_clean(n);
    lemma_clean_join(dir, rel);
    lemma_clean_join(rel, n);
    lemma_clean_join(dir, rel + "/"@ + n);
    lemma_join_parts(path_join(dir, rel), n);
    assert(dir + "/"@ + rel + "/"@ + n =~= dir + "/"@ + (rel + "/"@ + n));
    lemma_plain_join(path_join(dir, rel), n);
}

proof fn lemma_part_hidden_by_name(dir: Seq<char>, rel: Seq<char>, part: Seq<char>)
    requires
        clean_path(dir),
        plain_dir(dir),
        clean_path(rel),
        rel.len() > 0,
        rel[0] != '/',
        plain_dir(path_join(dir, rel)),
        planned_parts().contains(part),
        clean_path(part),
        part.len() > 0,
        part[0] != '/',
        "key.pem"@.len() <= part.len() || part.last() != 'm',
        "passphrase"@.len() <= part.len() || part.last() != 'e',
    ensures
        hidden_by_name(dir, artifact(dir, path_join(dir, rel), part)),
{
    reveal_strlit("key.pem");
    reveal_strlit("passphrase");
    let k = choose|k: int| 0 <= k < planned_parts().len() && planned_parts()[k] == part;
    law_planned_artifact_sensitivity(path_join(dir, rel), part);
    lemma_clean_join(dir, rel);
    lemma_clean_join(rel, part);
    let q = rel + "/"@ + part;
    lemma_join_parts(path_join(dir, rel), part);
    assert(path_join(path_join(dir, rel), part) =~= dir + "/"@ + q);
    lemma_clean_join(dir, q);
    lemma_below_join(dir, q);
    assert(artifact(dir, path_join(dir, rel), part) == q);
    lemma_join_ends(rel, part, "key.pem"@);
    lemma_join_ends(rel, part, "passphrase"@);
}

proof fn lemma_all_hidden_by_name(dir: Seq<char>, xs: Seq<Seq<char>>)
    requires
        forall|k: int| 0 <= k < xs.len() ==> hidden_by_name(dir, #[trigger] xs[k]),
    ensures
        forall|r: Seq<char>| xs.contains(r) ==> hidden_by_name(dir, r),
{
}

proof fn lemma_literal_parts()
    ensures
        forall|k: int|
            0 <= k < planned_parts().len() ==> {
                let part = #[trigger] planned_parts()[k];
                &&& clean_path(part)
                &&& part.len() > 0
                &&& part[0] != '/'
                &&& "key.pem"@.len() <= part.len() || part.last() != 'm'
                &&& "passphrase"@.len() <= part.len() || part.last() != 'e'
            },
{
    reveal_strlit("key.pem");
    reveal_strlit("passphrase");
    reveal_strlit("private/ca.key.pem");
    reveal_strlit("private/ca.passphrase");
    reveal_strlit("private/key.pem");
    reveal_strlit("private/passphrase");
    reveal_strlit("certs/ca.cert.pem");
    reveal_strlit("certs/cert.pem");
    reveal_strlit("csr/ca.csr.pem");
    reveal_strlit("csr/request.csr.pem");
    reveal_strlit("config/ca.ext");
    reveal_strlit("config/leaf-ext.cnf");
    reveal_strlit("chain/issuer-chain.pem");
    reveal_strlit("chain/fullchain.pem");
    reveal_strlit("index.txt");
    reveal_strlit("serial");
}

proof fn lemma_part_at(dir: Seq<char>, rel: Seq<char>, k: int)
    requires
        clean_path(dir),
        plain_dir(dir),
        clean_path(rel),
        rel.len() > 0,
        rel[0] != '/',
        plain_dir(path_join(dir, rel)),
        0 <= k < planned_parts().len(),
    ensures
        hidden_by_name(dir, artifact(dir, path_join(dir, rel), planned_parts()[k])),
{
    lemma_literal_parts();
    let part = planned_parts()[k];
    assert(planned_parts().contains(part));
    lemma_part_hidden_by_name(dir, rel, part);
}

proof fn lemma_fixed_names(profile: Profile)
    ensures
        valid_name(profile_name(profile)),
        profile_name(profile) != "private"@,
        valid_name("root"@),
        "root"@ != "private"@,
        valid_name("intermediate"@),
        "intermediate"@ != "private"@,
        valid_name("ca"@),
        "ca"@ != "private"@,
        valid_name("certs"@),
        "certs"@ != "private"@,
{
    reveal_strlit("private");
    reveal_strlit("root");
    reveal_strlit("intermediate");
    reveal_strlit("ca");
    reveal_strlit("certs");
    reveal_strlit(".");
    reveal_strlit("..");
    reveal_strlit("ecdsa-p256");
    reveal_strlit("ed25519");
    reveal_strlit("rsa-4096");
    assert("root"@[0] != "private"@[0]);
    assert("intermediate"@[0] != "private"@[0]);
    assert("ca"@.len() != "private"@.len());
    assert("ca"@[0] != ".."@[0]);
    assert("certs"@.len() != "private"@.len());
    assert("ecdsa-p256"@.len() != "private"@.len());
    assert("ed25519"@[0] != "private"@[0]);
    assert("rsa-4096"@.len() != "private"@.len());
}

/// The relative path of a CA or leaf directory below `dir`, built one clean component at a
/// time.
proof fn lemma_rel_dir(dir: Seq<char>, a: Seq<char>, b: Seq<char>, c: Seq<char>)
    requires
        clean_path(dir),
        plain_dir(dir),
        valid_name(a),
        a != "private"@,
        valid_name(b),
        b != "private"@,
        valid_name(c),
        c != "private"@,
    ensures
        path_join(path_join(path_join(dir, a), b), c) == path_join(dir, a + "/"@ + b + "/"@ + c),
        clean_path(a + "/"@ + b + "/"@ + c),
        (a + "/"@ + b + "/"@ + c)[0] != '/',
        (a + "/"@ + b + "/"@ + c).len() > 0,
        plain_dir(path_join(dir, a + "/"@ + b + "/"@ + c)),
{
    lemma_name_clean(a);
    lemma_plain_join(dir, a);
    lemma_extend_rel(dir, a, b);
    lemma_extend_rel(dir, a + "/"@ + b, c);
}

proof fn lemma_extension_dir_clean()
    ensures
        clean_path(".pki-intermediate-ext"@),
        ".pki-intermediate-ext"@.len() > 0,
        ".pki-intermediate-ext"@.last() != '/',
        ".pki-intermediate-ext"@[0] != '/',
{
    reveal_strlit(".pki-intermediate-ext");
}

proof fn lemma_extension_below(dir: Seq<char>, name: Seq<char>)
    requires
        clean_path(dir),
        plain_dir(dir),
        valid_name(name),
    ensures
        path_below(dir, extension_path(dir, name)) == ".pki-intermediate-ext"@ + "/"@ + name,
        path_join(dir, ".pki-intermediate-ext"@ + "/"@ + name) == extension_path(dir, name),
{
    let ext = ".pki-intermediate-ext"@;
    lemma_extension_dir_clean();
    lemma_name_clean(name);
    lemma_clean_join(dir, ext);
    lemma_clean_join(ext, name);
    let q = ext + "/"@ + name;
    lemma_clean_join(dir, q);
    lemma_join_parts(path_join(dir, ext), name);
    assert(extension_path(dir, name) =~= dir + "/"@ + q);
    lemma_below_join(dir, q);
}

proof fn lemma_extension_name_ends(name: Seq<char>)
    requires
        valid_name(name),
    ensures
        ends_with(".pki-intermediate-ext"@ + "/"@ + name, "passphrase"@) == ends_with(name, "passphrase"@),
        !ends_with(".pki-intermediate-ext"@ + "/"@ + name, "key.pem"@),
{
    reveal_strlit("key.pem");
    reveal_strlit("passphrase");
    let ext = ".pki-intermediate-ext"@;
    lemma_extension_dir_clean();
    assert(!"key.pem"@.contains('/'));
    assert(!"passphrase"@.contains('/'));
    assert(name_char(name[0]));
    lemma_join_parts(ext, name);
    lemma_join_name_ends(ext, name, "key.pem"@);
    lemma_join_name_ends(ext, name, "passphrase"@);
    if ends_with(name, "key.pem"@) {
        assert(name.subrange(name.len() - 7, name.len() as int)[3] == name[name.len() - 4]);
        assert(name_char(name[name.len() - 4]));
    }
}

proof fn lemma_extension_hidden_by_name(dir: Seq<char>, name: Seq<char>)
    requires
        clean_path(dir),
        plain_dir(dir),
        valid_name(name),
    ensures
        hidden_by_name(dir, path_below(dir, extension_path(dir, name))),
{
    lemma_extension_below(dir, name);
    lemma_extension_name_ends(name);
    law_extension_file_sensitivity(dir, name);
}

/// What the files of every plan show follows from their names alone: for a CA or a leaf
/// certificate of a valid name other than `private`, in a PKI directory written without
/// empty or `.` components and with no `private` component, each file that the root,
/// intermediate or leaf artifact plan lists (relative to the PKI directory) has its
/// contents hidden exactly when its name ends in `key.pem` or `passphrase`: keys and
/// passphrase files are hidden; certificates, requests, chains, extension files,
/// `index.txt` and `serial` are shown.
pub proof fn law_planned_artifacts_hidden_by_name(
    dir: Seq<char>,
    profile: Profile,
    name: Seq<char>,
    includes_passphrase: bool,
)
    requires
        clean_path(dir),
        plain_dir(dir),
        valid_name(name),
        name != "private"@,
    ensures
        forall|r: Seq<char>|
            root_artifacts(dir, ca_dir(dir, profile, "root"@, name), includes_passphrase).contains(r)
                ==> hidden_by_name(dir, r),
        forall|r: Seq<char>|
            intermediate_artifacts(
                dir,
                ca_dir(dir, profile, "intermediate"@, name),
                extension_path(dir, name),
                includes_passphrase,
            ).contains(r) ==> hidden_by_name(dir, r),
        forall|r: Seq<char>|
            certificate_artifacts(dir, leaf_dir(dir, profile, name), includes_passphrase).contains(r)
                ==> hidden_by_name(dir, r),
{
    let pn = profile_name(profile);
    lemma_fixed_names(profile);
    lemma_name_clean(pn);
    lemma_plain_join(dir, pn);
    lemma_rel_dir(dir, pn, "root"@, name);
    let root_rel = pn + "/"@ + "root"@ + "/"@ + name;
    lemma_extend_rel(dir, root_rel, "ca"@);
    let root_target = ca_dir(dir, profile, "root"@, name);
    assert(root_target == path_join(dir, root_rel + "/"@ + "ca"@));
    let rr = root_rel + "/"@ + "ca"@;
    lemma_part_at(dir, rr, 0);
    lemma_part_at(dir, rr, 1);
    lemma_part_at(dir, rr, 4);
    lemma_part_at(dir, rr, 6);
    lemma_part_at(dir, rr, 8);
    lemma_part_at(dir, rr, 10);
    lemma_part_at(dir, rr, 11);
    lemma_part_at(dir, rr, 12);
    lemma_part_at(dir, rr, 13);
    let xs = root_artifacts(dir, root_target, includes_passphrase);
    assert forall|k: int| 0 <= k < xs.len() implies hidden_by_name(dir, #[trigger] xs[k]) by {}
    lemma_all_hidden_by_name(dir, xs);

    lemma_rel_dir(dir, pn, "intermediate"@, name);
    let mid_rel = pn + "/"@ + "intermediate"@ + "/"@ + name;
    lemma_extend_rel(dir, mid_rel, "ca"@);
    let mid_target = ca_dir(dir, profile, "intermediate"@, name);
    let mr = mid_rel + "/"@ + "ca"@;
    assert(mid_target == path_join(dir, mr));
    lemma_part_at(dir, mr, 0);
    lemma_part_at(dir, mr, 1);
    lemma_part_at(dir, mr, 4);
    lemma_part_at(dir, mr, 6);
    lemma_part_at(dir, mr, 10);
    lemma_part_at(dir, mr, 11);
    lemma_part_at(dir, mr, 12);
    lemma_part_at(dir, mr, 13);
    lemma_extension_hidden_by_name(dir, name);
    let ys = intermediate_artifacts(dir, mid_target, extension_path(dir, name), includes_passphrase);
    assert forall|k: int| 0 <= k < ys.len() implies hidden_by_name(dir, #[trigger] ys[k]) by {}
    lemma_all_hidden_by_name(dir, ys);

    lemma_rel_dir(dir, pn, "certs"@, name);
    let leaf_rel = pn + "/"@ + "certs"@ + "/"@ + name;
    let leaf_target = leaf_dir(dir, profile, name);
    assert(leaf_target == path_join(dir, leaf_rel));
    lemma_part_at(dir, leaf_rel, 2);
    lemma_part_at(dir, leaf_rel, 3);
    lemma_part_at(dir, leaf_rel, 5);
    lemma_part_at(dir, leaf_rel, 7);
    lemma_part_at(dir, leaf_rel, 9);
    lemma_part_at(dir, leaf_rel, 10);
    lemma_part_at(dir, leaf_rel, 11);
    let zs = certificate_artifacts(dir, leaf_target, includes_passphrase);
    assert forall|k: int| 0 <= k < zs.len() implies hidden_by_name(dir, #[trigger] zs[k]) by {}
    lemma_all_hidden_by_name(dir, zs);
}

} // verus!
