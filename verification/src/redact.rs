//! What a report may show of the OpenSSL runs: arguments with passphrase sources, key and
//! passphrase paths redacted and PKI paths made relative, and byte counts in place of output.
use vstd::prelude::*;
use crate::text::{ends_with, owned, starts_with, text_ends_with, text_eq, text_starts_with};
use crate::layout::{path_below, relative_path};
use crate::report::CommandReport;

verus! {

/// An option whose next argument is a passphrase source.
pub open spec fn passphrase_option(a: Seq<char>) -> bool {
    a == "-pass"@ || a == "-passin"@ || a == "-passout"@
}

/// An argument that is a passphrase source or names a private key or passphrase file.
pub open spec fn secret_argument(a: Seq<char>) -> bool {
    ||| starts_with(a, "pass:"@)
    ||| starts_with(a, "file:"@)
    ||| starts_with(a, "fd:"@)
    ||| starts_with(a, "env:"@)
    ||| starts_with(a, "/proc/self/fd/"@)
    ||| ends_with(a, "key.pem"@)
    ||| ends_with(a, "passphrase"@)
}

/// How argument `i` of a run is shown: `<redacted>` for a secret or for the argument after a
/// passphrase option, otherwise relative to the PKI directory `dir` where it lies below it.
pub open spec fn shown_argument(dir: Seq<char>, args: Seq<Seq<char>>, i: int) -> Seq<char> {
    if secret_argument(args[i]) || (i > 0 && passphrase_option(args[i - 1])) {
        "<redacted>"@
    } else {
        path_below(dir, args[i])
    }
}

/// The arguments of a run as a report shows them.
pub open spec fn shown_arguments(dir: Seq<char>, args: Seq<Seq<char>>) -> Seq<Seq<char>> {
    Seq::new(args.len(), |i: int| shown_argument(dir, args, i))
}

/// A run as a report shows it: its arguments redacted, its status and byte counts kept, and
/// no output.
pub open spec fn shown_run(dir: Seq<char>, before: CommandReport, after: CommandReport) -> bool {
    &&& after.argv.deep_view() == shown_arguments(dir, before.argv.deep_view())
    &&& after.success == before.success
    &&& after.code == before.code
    &&& after.stdout@ == Seq::<char>::empty()
    &&& after.stderr@ == Seq::<char>::empty()
    &&& after.stdout_bytes == before.stdout_bytes
    &&& after.stderr_bytes == before.stderr_bytes
}

fn is_passphrase_option(a: &str) -> (r: bool)
    ensures
        r == passphrase_option(a@),
{
    text_eq(a, "-pass") || text_eq(a, "-passin") || text_eq(a, "-passout")
}

fn is_secret_argument(a: &str) -> (r: bool)
    ensures
        r == secret_argument(a@),
{
    text_starts_with(a, "pass:") || text_starts_with(a, "file:") || text_starts_with(a, "fd:")
        || text_starts_with(a, "env:") || text_starts_with(a, "/proc/self/fd/")
        || text_ends_with(a, "key.pem") || text_ends_with(a, "passphrase")
}

/// The arguments of a run as a report shows them.
pub fn redacted_arguments(dir: &str, args: &Vec<String>) -> (r: Vec<String>)
    ensures
        r.deep_view() == shown_arguments(dir@, args.deep_view()),
{
    let mut r: Vec<String> = Vec::new();
    let mut i: usize = 0;
    while i < args.len()
        invariant
            i <= args@.len(),
            r@.len() == i,
            forall|k: int| 0 <= k < i ==> r@[k]@ == shown_argument(dir@, args.deep_view(), k),
        decreases args.len() - i,
    {
        let hidden = is_secret_argument(args[i].as_str()) || (i > 0 && is_passphrase_option(
            args[i - 1].as_str(),
        ));
        if hidden {
            r.push(owned("<redacted>"));
        } else {
            r.push(relative_path(dir, args[i].as_str()));
        }
        i = i + 1;
    }
    assert(r.deep_view() =~= shown_arguments(dir@, args.deep_view()));
    r
}

/// The runs of an operation as its report shows them: arguments redacted, no raw output.
pub fn redacted_runs(dir: &str, commands: &Vec<CommandReport>) -> (r: Vec<CommandReport>)
    ensures
        r@.len() == commands@.len(),
        forall|i: int| 0 <= i < commands@.len() ==> shown_run(dir@, commands@[i], #[trigger] r@[i]),
{
    let mut r: Vec<CommandReport> = Vec::new();
    let mut i: usize = 0;
    while i < commands.len()
        invariant
            i <= commands@.len(),
            r@.len() == i,
            forall|k: int| 0 <= k < i ==> shown_run(dir@, commands@[k], #[trigger] r@[k]),
        decreases commands.len() - i,
    {
        let c = &commands[i];
        r.push(
            CommandReport {
                argv: redacted_arguments(dir, &c.argv),
                success: c.success,
                code: c.code,
                stdout: String::new(),
                stderr: String::new(),
                stdout_bytes: c.stdout_bytes,
                stderr_bytes: c.stderr_bytes,
            },
        );
        i = i + 1;
    }
    r
}

} // verus!
