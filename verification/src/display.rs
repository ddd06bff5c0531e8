//! Human-readable output: commands as shell lines, and where each artifact comes from.
use vstd::prelude::*;
use crate::text::{
    decimal, decimal_string,
    chars_of, contains, ends_with, is_alnum, owned, push_char, starts_with, text_contains,
    text_ends_with, text_eq, text_starts_with,
};
use crate::report::{CommandReport, Report};
use crate::tree::{render_tree, tree_text};
use crate::plans::extend_strings;
use crate::layout::{join_path, path_join};

verus! {

/// A character that needs no quoting in a shell word.
pub open spec fn plain_char(c: char) -> bool {
    is_alnum(c) || c == '.' || c == ':' || c == '/' || c == '_' || c == '-'
}

/// The text with each `"` escaped by a backslash.
pub open spec fn escape_quotes(s: Seq<char>) -> Seq<char>
    decreases s.len(),
{
    if s.len() == 0 {
        Seq::empty()
    } else {
        escape_quotes(s.drop_last()) + if s.last() == '"' {
            seq!['\\', '"']
        } else {
            seq![s.last()]
        }
    }
}

/// A shell word for the text: itself when every character is plain, otherwise in double
/// quotes with inner double quotes escaped.
pub open spec fn quoted(s: Seq<char>) -> Seq<char> {
    if forall|i: int| 0 <= i < s.len() ==> plain_char(#[trigger] s[i]) {
        s
    } else {
        seq!['"'] + escape_quotes(s) + seq!['"']
    }
}

/// Quotes a value for display as one shell word.
pub fn shell_quote(value: &str) -> (r: String)
    ensures
        r@ == quoted(value@),
{
    let v = chars_of(value);
    let mut plain = true;
    let mut escaped = String::new();
    let mut i: usize = 0;
    assert(v@.take(0) =~= Seq::<char>::empty());
    while i < v.len()
        invariant
            v@ == value@,
            i <= v@.len(),
            plain == forall|k: int| 0 <= k < i ==> plain_char(#[trigger] v@[k]),
            escaped@ == escape_quotes(v@.take(i as int)),
        decreases v.len() - i,
    {
        let c = v[i];
        let n = c as u32;
        let ok = (48 <= n && n <= 57) || (65 <= n && n <= 90) || (97 <= n && n <= 122) || c == '.'
            || c == ':' || c == '/' || c == '_' || c == '-';
        if !ok {
            plain = false;
        }
        if c == '"' {
            push_char(&mut escaped, '\\');
        }
        push_char(&mut escaped, c);
        assert(v@.take(i + 1).drop_last() =~= v@.take(i as int));
        i = i + 1;
        assert(escaped@ =~= escape_quotes(v@.take(i as int)));
    }
    if plain {
        return owned(value);
    }
    assert(v@.take(i as int) =~= value@);
    let mut r = String::new();
    push_char(&mut r, '"');
    r.append(escaped.as_str());
    push_char(&mut r, '"');
    assert(r@ =~= seq!['"'] + escape_quotes(value@) + seq!['"']);
    r
}

/// A short option, such as `-out`: one dash, not two.
pub open spec fn short_option(a: Seq<char>) -> bool {
    starts_with(a, "-"@) && !starts_with(a, "--"@)
}

/// The display groups of command arguments: a short option together with a following
/// value that is not itself an option, and every other argument alone; each quoted.
pub open spec fn command_groups(args: Seq<Seq<char>>) -> Seq<Seq<char>>
    decreases args.len(),
{
    if args.len() == 0 {
        Seq::empty()
    } else if short_option(args[0]) && args.len() > 1 && !starts_with(args[1], "-"@) {
        seq![quoted(args[0]) + " "@ + quoted(args[1])] + command_groups(args.skip(2))
    } else {
        seq![quoted(args[0])] + command_groups(args.skip(1))
    }
}

/// The display lines of a command: `$`, the program and the first group on the first line,
/// then one further group per line, indented, every line but the last ending in ` \`.
pub open spec fn command_lines(command: Seq<Seq<char>>, indent: Seq<char>) -> Seq<Seq<char>> {
    if command.len() == 0 {
        Seq::empty()
    } else {
        let groups = command_groups(command.skip(1));
        if groups.len() == 0 {
            seq![indent + "$ "@ + command[0]]
        } else {
            seq![indent + "$ "@ + command[0] + " "@ + groups[0] + " \\"@] + Seq::new(
                (groups.len() - 1) as nat,
                |i: int|
                    indent + "    "@ + groups[i + 1] + if i + 2 == groups.len() {
                        Seq::empty()
                    } else {
                        " \\"@
                    },
            )
        }
    }
}

fn groups_of(args: &[String]) -> (r: Vec<String>)
    ensures
        r.deep_view() == command_groups(args@.map_values(|a: String| a@)),
{
    let ghost av = args@.map_values(|a: String| a@);
    let mut lines: Vec<String> = Vec::new();
    let mut index: usize = 0;
    assert(av.skip(0) =~= av);
    assert(lines.deep_view() + command_groups(av.skip(0)) =~= command_groups(av));
    while index < args.len()
        invariant
            av == args@.map_values(|a: String| a@),
            index <= args@.len(),
            lines.deep_view() + command_groups(av.skip(index as int)) == command_groups(av),
        decreases args.len() - index,
    {
        let ghost rest = av.skip(index as int);
        let ghost before = lines.deep_view();
        assert(rest[0] == args@[index as int]@);
        let argument = args[index].as_str();
        if text_starts_with(argument, "-") && !text_starts_with(argument, "--") && index + 1
            < args.len() && !text_starts_with(args[index + 1].as_str(), "-") {
            assert(rest[1] == args@[index + 1]@);
            let mut line = shell_quote(argument);
            line.append(" ");
            let value = shell_quote(args[index + 1].as_str());
            line.append(value.as_str());
            lines.push(line);
            assert(rest.skip(2) =~= av.skip(index + 2));
            assert(lines.deep_view() =~= before.push(quoted(rest[0]) + " "@ + quoted(rest[1])));
            assert(lines.deep_view() + command_groups(av.skip(index + 2)) =~= command_groups(av));
            index = index + 2;
        } else {
            lines.push(shell_quote(argument));
            assert(rest.skip(1) =~= av.skip(index + 1));
            assert(lines.deep_view() =~= before.push(quoted(rest[0])));
            assert(lines.deep_view() + command_groups(av.skip(index + 1)) =~= command_groups(av));
            index = index + 1;
        }
    }
    assert(av.skip(index as int) =~= Seq::<Seq<char>>::empty());
    assert(lines.deep_view() =~= command_groups(av));
    lines
}

/// The display lines of a command, indented by `indent`.
pub fn multiline_command(command: &[String], indent: &str) -> (r: Vec<String>)
    ensures
        r.deep_view() == command_lines(command@.map_values(|a: String| a@), indent@),
{
    let ghost cv = command@.map_values(|a: String| a@);
    if command.len() == 0 {
        let r: Vec<String> = Vec::new();
        assert(r.deep_view() =~= command_lines(cv, indent@));
        return r;
    }
    let program = command[0].as_str();
    let rest = slice_tail(command);
    assert(rest@.map_values(|a: String| a@) =~= cv.skip(1));
    let groups = groups_of(rest);
    let ghost gv = groups.deep_view();
    let mut r: Vec<String> = Vec::new();
    if groups.len() == 0 {
        let mut line = owned(indent);
        line.append("$ ");
        line.append(program);
        r.push(line);
        assert(r.deep_view() =~= command_lines(cv, indent@));
        return r;
    }
    let mut first = owned(indent);
    first.append("$ ");
    first.append(program);
    first.append(" ");
    first.append(groups[0].as_str());
    first.append(" \\");
    r.push(first);
    let mut i: usize = 1;
    while i < groups.len()
        invariant
            gv == groups.deep_view(),
            1 <= i <= gv.len(),
            r.deep_view().len() == i,
            r.deep_view()[0] == indent@ + "$ "@ + cv[0] + " "@ + gv[0] + " \\"@,
            forall|k: int|
                1 <= k < i ==> r.deep_view()[k] == indent@ + "    "@ + gv[k] + if k + 1
                    == gv.len() {
                    Seq::<char>::empty()
                } else {
                    " \\"@
                },
        decreases groups.len() - i,
    {
        let mut line = owned(indent);
        line.append("    ");
        line.append(groups[i].as_str());
        if i + 1 != groups.len() {
            line.append(" \\");
        } else {
            assert(line@ + Seq::<char>::empty() =~= line@);
        }
        let ghost before = r.deep_view();
        r.push(line);
        assert(r.deep_view() =~= before.push(line@));
        i = i + 1;
    }
    assert(r.deep_view() =~= command_lines(cv, indent@));
    r
}

fn slice_tail(s: &[String]) -> (r: &[String])
    requires
        s@.len() > 0,
    ensures
        r@ == s@.skip(1),
{
    let (_, tail) = s.split_at(1);
    tail
}


/// Who creates an artifact, what it is for, and how it is made, judged by the end of its
/// relative path.
pub open spec fn provenance(r: Seq<char>) -> (Seq<char>, Seq<char>, Seq<char>) {
    if ends_with(r, ".key.pem"@) {
        (
            "OpenSSL"@,
            "private key used by the CA or certificate"@,
            "run the planned key-generation command"@,
        )
    } else if ends_with(r, ".passphrase"@) || ends_with(r, "/passphrase"@) {
        (
            "pki application"@,
            "passphrase used to protect or unlock a private key"@,
            "read or generate the passphrase; generated values use 32 secure random bytes encoded as 64 lowercase hexadecimal characters followed by a newline"@,
        )
    } else if ends_with(r, ".ext"@) || ends_with(r, "-ext.cnf"@) {
        (
            "pki application"@,
            "OpenSSL X.509 extension configuration"@,
            "write the exact extension configuration text; root certificates use inline -addext arguments, while signed certificates use this file with -extfile"@,
        )
    } else if ends_with(r, ".csr.pem"@) {
        (
            "OpenSSL"@,
            "certificate signing request submitted for signing"@,
            "run the planned openssl req -new command"@,
        )
    } else if ends_with(r, ".cert.pem"@) || ends_with(r, "/cert.pem"@) {
        ("OpenSSL"@, "public certificate"@, "run the planned certificate command"@)
    } else if ends_with(r, "issuer-chain.pem"@) || ends_with(r, "fullchain.pem"@) {
        (
            "pki application"@,
            "certificate-chain bundle assembled from certificate files"@,
            "copy and concatenate certificate bytes in chain order"@,
        )
    } else if ends_with(r, "/index.txt"@) {
        (
            "pki application"@,
            "OpenSSL CA database index"@,
            "create an empty 0-byte text file"@,
        )
    } else if ends_with(r, "/serial"@) {
        (
            "pki application"@,
            "CA database state"@,
            "write the initial serial value 1000 followed by a newline"@,
        )
    } else {
        ("pki application"@, "created operation artifact"@, "write the planned artifact"@)
    }
}

/// The creator, purpose and generation method of the artifact at `relative`.
pub fn artifact_provenance(relative: &str) -> (r: (&'static str, &'static str, &'static str))
    ensures
        (r.0@, r.1@, r.2@) == provenance(relative@),
{
    if text_ends_with(relative, ".key.pem") {
        (
            "OpenSSL",
            "private key used by the CA or certificate",
            "run the planned key-generation command",
        )
    } else if text_ends_with(relative, ".passphrase") || text_ends_with(relative, "/passphrase") {
        (
            "pki application",
            "passphrase used to protect or unlock a private key",
            "read or generate the passphrase; generated values use 32 secure random bytes encoded as 64 lowercase hexadecimal characters followed by a newline",
        )
    } else if text_ends_with(relative, ".ext") || text_ends_with(relative, "-ext.cnf") {
        (
            "pki application",
            "OpenSSL X.509 extension configuration",
            "write the exact extension configuration text; root certificates use inline -addext arguments, while signed certificates use this file with -extfile",
        )
    } else if text_ends_with(relative, ".csr.pem") {
        (
            "OpenSSL",
            "certificate signing request submitted for signing",
            "run the planned openssl req -new command",
        )
    } else if text_ends_with(relative, ".cert.pem") || text_ends_with(relative, "/cert.pem") {
        ("OpenSSL", "public certificate", "run the planned certificate command")
    } else if text_ends_with(relative, "issuer-chain.pem") || text_ends_with(
        relative,
        "fullchain.pem",
    ) {
        (
            "pki application",
            "certificate-chain bundle assembled from certificate files",
            "copy and concatenate certificate bytes in chain order",
        )
    } else if text_ends_with(relative, "/index.txt") {
        ("pki application", "OpenSSL CA database index", "create an empty 0-byte text file")
    } else if text_ends_with(relative, "/serial") {
        (
            "pki application",
            "CA database state",
            "write the initial serial value 1000 followed by a newline",
        )
    } else {
        ("pki application", "created operation artifact", "write the planned artifact")
    }
}

/// What the display says of a planned artifact's contents.
pub open spec fn content_lines(r: Seq<char>) -> Seq<Seq<char>> {
    if ends_with(r, ".key.pem"@) || ends_with(r, "passphrase"@) {
        seq!["  contents: hidden; sensitive file"@]
    } else if ends_with(r, ".ext"@) || ends_with(r, "-ext.cnf"@) {
        seq![
            "  contents: exact extension text is generated from basicConstraints, keyUsage, subjectKeyIdentifier, authorityKeyIdentifier, and SAN settings"@,
            "  note: root signing uses inline -addext arguments; the root ca.ext file is metadata and is not consumed by the displayed root command"@,
        ]
    } else if ends_with(r, "/index.txt"@) {
        seq!["  contents: empty file, 0 bytes"@]
    } else if ends_with(r, "/serial"@) {
        seq!["  contents: 1000 followed by a newline"@]
    } else if ends_with(r, "issuer-chain.pem"@) {
        seq!["  contents: copy the parent or issuer certificate-chain bytes"@]
    } else if ends_with(r, "fullchain.pem"@) {
        seq!["  contents: concatenate the leaf certificate with the issuer chain"@]
    } else {
        seq!["  contents: generated by the application during execution"@]
    }
}

/// The display lines about the contents of a planned artifact.
pub fn planned_content(relative: &str) -> (r: Vec<String>)
    ensures
        r.deep_view() == content_lines(relative@),
{
    let mut r: Vec<String> = Vec::new();
    if text_ends_with(relative, ".key.pem") || text_ends_with(relative, "passphrase") {
        r.push(owned("  contents: hidden; sensitive file"));
    } else if text_ends_with(relative, ".ext") || text_ends_with(relative, "-ext.cnf") {
        r.push(
            owned(
                "  contents: exact extension text is generated from basicConstraints, keyUsage, subjectKeyIdentifier, authorityKeyIdentifier, and SAN settings",
            ),
        );
        r.push(
            owned(
                "  note: root signing uses inline -addext arguments; the root ca.ext file is metadata and is not consumed by the displayed root command",
            ),
        );
    } else if text_ends_with(relative, "/index.txt") {
        r.push(owned("  contents: empty file, 0 bytes"));
    } else if text_ends_with(relative, "/serial") {
        r.push(owned("  contents: 1000 followed by a newline"));
    } else if text_ends_with(relative, "issuer-chain.pem") {
        r.push(owned("  contents: copy the parent or issuer certificate-chain bytes"));
    } else if text_ends_with(relative, "fullchain.pem") {
        r.push(owned("  contents: concatenate the leaf certificate with the issuer chain"));
    } else {
        r.push(owned("  contents: generated by the application during execution"));
    }
    assert(r.deep_view() =~= content_lines(relative@));
    r
}

/// A command names the artifact: one of its arguments is the relative path or ends with it.
pub open spec fn mentions(command: Seq<Seq<char>>, relative: Seq<char>) -> bool {
    exists|j: int|
        0 <= j < command.len() && (command[j] == relative || ends_with(
            #[trigger] command[j],
            relative,
        ))
}

/// The command at `i` is the first that names the artifact.
pub open spec fn first_at(relative: Seq<char>, commands: Seq<Seq<Seq<char>>>, i: int) -> bool {
    &&& 0 <= i < commands.len()
    &&& mentions(commands[i], relative)
    &&& forall|k: int| 0 <= k < i ==> !mentions(#[trigger] commands[k], relative)
}

/// The index of the first command that names the artifact, if any does.
pub open spec fn first_mention(relative: Seq<char>, commands: Seq<Seq<Seq<char>>>) -> Option<int> {
    if exists|i: int| first_at(relative, commands, i) {
        Some(choose|i: int| first_at(relative, commands, i))
    } else {
        None
    }
}

/// Whether any argument of the command is the relative path or ends with it.
fn names_artifact(command: &Vec<String>, relative: &str) -> (r: bool)
    ensures
        r == mentions(command.deep_view(), relative@),
{
    let ghost cv = command.deep_view();
    let mut i: usize = 0;
    while i < command.len()
        invariant
            cv == command.deep_view(),
            i <= cv.len(),
            forall|j: int|
                0 <= j < i ==> !(cv[j] == relative@ || ends_with(#[trigger] cv[j], relative@)),
        decreases command.len() - i,
    {
        let a = command[i].as_str();
        assert(cv[i as int] == a@);
        if text_eq(a, relative) || text_ends_with(a, relative) {
            return true;
        }
        i = i + 1;
    }
    false
}

/// The first planned command that names the artifact at `relative`.
pub fn planned_command_for_artifact<'a>(relative: &str, commands: &'a [Vec<String>]) -> (r: Option<
    &'a Vec<String>,
>)
    ensures
        match first_mention(relative@, commands@.map_values(|c: Vec<String>| c.deep_view())) {
            Some(i) => r is Some && r->0.deep_view() == commands@[i].deep_view(),
            None => r is None,
        },
{
    let ghost cs = commands@.map_values(|c: Vec<String>| c.deep_view());
    let mut i: usize = 0;
    while i < commands.len()
        invariant
            cs == commands@.map_values(|c: Vec<String>| c.deep_view()),
            i <= cs.len(),
            forall|k: int| 0 <= k < i ==> !mentions(#[trigger] cs[k], relative@),
        decreases commands.len() - i,
    {
        if names_artifact(&commands[i], relative) {
            assert(first_at(relative@, cs, i as int));
            proof {
                let j = choose|j: int| first_at(relative@, cs, j);
                if j < i {
                    assert(!mentions(cs[j], relative@));
                } else if j > i {
                    assert(!mentions(cs[i as int], relative@));
                }
            }
            return Some(&commands[i]);
        }
        i = i + 1;
    }
    assert(!exists|j: int| first_at(relative@, cs, j));
    None
}

/// Paths whose contents are never shown: anything under a `private` directory, key files
/// and passphrase files.
pub open spec fn sensitive(path: Seq<char>) -> bool {
    contains(path, "/private/"@) || ends_with(path, ".key.pem"@) || ends_with(path, "passphrase"@)
}

/// Whether the contents of the file at `path` must stay hidden.
pub fn is_sensitive_path(path: &str) -> (r: bool)
    ensures
        r == sensitive(path@),
{
    text_contains(path, "/private/") || text_ends_with(path, ".key.pem") || text_ends_with(
        path,
        "passphrase",
    )
}

/// One of the run's arguments is exactly the target path.
pub open spec fn creates(c: CommandReport, target: Seq<char>) -> bool {
    exists|j: int| 0 <= j < c.argv@.len() && #[trigger] c.argv@[j]@ == target
}

/// Whether one of the command's arguments is exactly the target path.
pub fn command_creates(command: &CommandReport, target: &str) -> (r: bool)
    ensures
        r == creates(*command, target@),
{
    let mut i: usize = 0;
    while i < command.argv.len()
        invariant
            i <= command.argv@.len(),
            forall|j: int| 0 <= j < i ==> #[trigger] command.argv@[j]@ != target@,
        decreases command.argv.len() - i,
    {
        if text_eq(command.argv[i].as_str(), target) {
            return true;
        }
        i = i + 1;
    }
    false
}

/// The display lines for one planned artifact: its path, creator and purpose, then the
/// first planned command that names it, or else how it is generated and what it holds.
pub open spec fn artifact_block(r: Seq<char>, commands: Seq<Seq<Seq<char>>>) -> Seq<Seq<char>> {
    let p = provenance(r);
    seq!["  file: "@ + r, "  created by: "@ + p.0, "  purpose: "@ + p.1] + match first_mention(
        r,
        commands,
    ) {
        Some(i) => seq!["  command:"@] + command_lines(commands[i], "    "@),
        None => seq!["  generation: "@ + p.2] + content_lines(r),
    }
}

/// The blocks of a list of planned artifacts, in order.
pub open spec fn artifact_blocks(artifacts: Seq<Seq<char>>, commands: Seq<Seq<Seq<char>>>) -> Seq<
    Seq<char>,
>
    decreases artifacts.len(),
{
    if artifacts.len() == 0 {
        Seq::empty()
    } else {
        artifact_blocks(artifacts.drop_last(), commands) + artifact_block(artifacts.last(), commands)
    }
}

/// The planned-provenance section of a dry run's verbose display.
pub open spec fn planned_provenance_lines(report: crate::ops::ReportView) -> Seq<Seq<char>> {
    seq!["planned artifacts:"@] + artifact_blocks(report.planned_artifacts, report.planned_commands)
}

fn line_of(prefix: &str, text: &str) -> (r: String)
    ensures
        r@ == prefix@ + text@,
{
    let mut line = owned(prefix);
    line.append(text);
    line
}

fn planned_block(relative: &str, commands: &Vec<Vec<String>>) -> (r: Vec<String>)
    ensures
        r.deep_view() == artifact_block(relative@, commands.deep_view()),
{
    let ghost cs = commands.deep_view();
    assert(cs =~= commands@.map_values(|c: Vec<String>| c.deep_view()));
    let (creator, purpose, method) = artifact_provenance(relative);
    let mut r: Vec<String> = Vec::new();
    r.push(line_of("  file: ", relative));
    r.push(line_of("  created by: ", creator));
    r.push(line_of("  purpose: ", purpose));
    let ghost head = r.deep_view();
    match planned_command_for_artifact(relative, commands.as_slice()) {
        Some(command) => {
            r.push(owned("  command:"));
            let lines = multiline_command(command.as_slice(), "    ");
            assert(command@.map_values(|a: String| a@) =~= command.deep_view());
            extend_strings(&mut r, &lines);
        },
        None => {
            r.push(line_of("  generation: ", method));
            let lines = planned_content(relative);
            extend_strings(&mut r, &lines);
        },
    }
    assert(r.deep_view() =~= artifact_block(relative@, cs));
    r
}

/// The verbose display of a dry run's planned artifacts and where each comes from.
pub fn planned_provenance(report: &Report) -> (r: Vec<String>)
    ensures
        r.deep_view() == planned_provenance_lines(report@),
{
    let artifacts = &report.planned_artifacts;
    let commands = &report.planned_commands;
    let ghost av = artifacts.deep_view();
    let ghost cs = commands.deep_view();
    let mut r: Vec<String> = Vec::new();
    r.push(owned("planned artifacts:"));
    let mut i: usize = 0;
    assert(av.take(0) =~= Seq::<Seq<char>>::empty());
    while i < artifacts.len()
        invariant
            av == artifacts.deep_view(),
            cs == commands.deep_view(),
            i <= av.len(),
            r.deep_view() == seq!["planned artifacts:"@] + artifact_blocks(av.take(i as int), cs),
        decreases artifacts.len() - i,
    {
        let block = planned_block(artifacts[i].as_str(), commands);
        assert(av.take(i + 1).drop_last() =~= av.take(i as int));
        extend_strings(&mut r, &block);
        i = i + 1;
        assert(r.deep_view() =~= seq!["planned artifacts:"@] + artifact_blocks(av.take(i as int), cs));
    }
    assert(av.take(i as int) =~= av);
    r
}

/// Some artifact's path contains the text.
pub open spec fn any_contains(artifacts: Seq<Seq<char>>, p: Seq<char>) -> bool {
    exists|i: int| 0 <= i < artifacts.len() && contains(#[trigger] artifacts[i], p)
}

/// The heading over a plan's artifacts: an intermediate CA's, a certificate's, or a root
/// CA's.
pub open spec fn plan_label(artifacts: Seq<Seq<char>>) -> Seq<char> {
    if any_contains(artifacts, "/intermediate/"@) {
        "planned CA artifacts:"@
    } else if exists|i: int|
        0 <= i < artifacts.len() && contains(#[trigger] artifacts[i], "/certs/"@) && contains(
            artifacts[i],
            "/csr/"@,
        ) {
        "planned certificate artifacts:"@
    } else {
        "planned root CA artifacts:"@
    }
}

/// The display lines of each command, in order.
pub open spec fn commands_lines(commands: Seq<Seq<Seq<char>>>, indent: Seq<char>) -> Seq<Seq<char>>
    decreases commands.len(),
{
    if commands.len() == 0 {
        Seq::empty()
    } else {
        commands_lines(commands.drop_last(), indent) + command_lines(commands.last(), indent)
    }
}

/// The plan section of a report's display: nothing when no command is planned; otherwise
/// the heading, each artifact indented, and each planned command.
pub open spec fn plan_lines(report: crate::ops::ReportView) -> Seq<Seq<char>> {
    if report.planned_commands.len() == 0 {
        Seq::empty()
    } else {
        seq![plan_label(report.planned_artifacts)] + report.planned_artifacts.map_values(
            |a: Seq<char>| "  "@ + a,
        ) + seq!["planned OpenSSL commands:"@] + commands_lines(report.planned_commands, "  "@)
    }
}

fn label_of(artifacts: &Vec<String>) -> (r: &'static str)
    ensures
        r@ == plan_label(artifacts.deep_view()),
{
    let ghost av = artifacts.deep_view();
    let mut i: usize = 0;
    while i < artifacts.len()
        invariant
            av == artifacts.deep_view(),
            i <= av.len(),
            forall|k: int| 0 <= k < i ==> !contains(#[trigger] av[k], "/intermediate/"@),
        decreases artifacts.len() - i,
    {
        if text_contains(artifacts[i].as_str(), "/intermediate/") {
            assert(contains(av[i as int], "/intermediate/"@));
            return "planned CA artifacts:";
        }
        i = i + 1;
    }
    let mut j: usize = 0;
    while j < artifacts.len()
        invariant
            av == artifacts.deep_view(),
            j <= av.len(),
            !any_contains(av, "/intermediate/"@),
            forall|k: int|
                0 <= k < j ==> !(contains(#[trigger] av[k], "/certs/"@) && contains(
                    av[k],
                    "/csr/"@,
                )),
        decreases artifacts.len() - j,
    {
        let a = artifacts[j].as_str();
        if text_contains(a, "/certs/") && text_contains(a, "/csr/") {
            assert(contains(av[j as int], "/certs/"@));
            return "planned certificate artifacts:";
        }
        j = j + 1;
    }
    "planned root CA artifacts:"
}

fn all_commands_lines(commands: &Vec<Vec<String>>, indent: &str) -> (r: Vec<String>)
    ensures
        r.deep_view() == commands_lines(commands.deep_view(), indent@),
{
    let ghost cs = commands.deep_view();
    let mut r: Vec<String> = Vec::new();
    let mut i: usize = 0;
    assert(cs.take(0) =~= Seq::<Seq<Seq<char>>>::empty());
    while i < commands.len()
        invariant
            cs == commands.deep_view(),
            i <= cs.len(),
            r.deep_view() == commands_lines(cs.take(i as int), indent@),
        decreases commands.len() - i,
    {
        let lines = multiline_command(commands[i].as_slice(), indent);
        assert(commands@[i as int]@.map_values(|a: String| a@) =~= cs[i as int]);
        assert(cs.take(i + 1).drop_last() =~= cs.take(i as int));
        extend_strings(&mut r, &lines);
        i = i + 1;
    }
    assert(cs.take(i as int) =~= cs);
    r
}

/// The plan section of a report's display.
pub fn planned_root(report: &Report) -> (r: Vec<String>)
    ensures
        r.deep_view() == plan_lines(report@),
{
    let ghost rv = report@;
    let mut r: Vec<String> = Vec::new();
    if report.planned_commands.len() == 0 {
        assert(r.deep_view() =~= plan_lines(rv));
        return r;
    }
    let artifacts = &report.planned_artifacts;
    let ghost av = artifacts.deep_view();
    r.push(owned(label_of(artifacts)));
    let mut i: usize = 0;
    while i < artifacts.len()
        invariant
            av == artifacts.deep_view(),
            i <= av.len(),
            r.deep_view() == seq![plan_label(av)] + av.take(i as int).map_values(
                |a: Seq<char>| "  "@ + a,
            ),
        decreases artifacts.len() - i,
    {
        let ghost before = r.deep_view();
        r.push(line_of("  ", artifacts[i].as_str()));
        assert(av.take(i + 1).map_values(|a: Seq<char>| "  "@ + a) =~= av.take(i as int).map_values(
            |a: Seq<char>| "  "@ + a,
        ).push("  "@ + av[i as int]));
        assert(r.deep_view() =~= before.push("  "@ + av[i as int]));
        i = i + 1;
    }
    assert(av.take(i as int) =~= av);
    r.push(owned("planned OpenSSL commands:"));
    let lines = all_commands_lines(&report.planned_commands, "  ");
    extend_strings(&mut r, &lines);
    assert(r.deep_view() =~= plan_lines(rv));
    r
}

/// Decimal text of an integer, with a leading `-` when it is negative.
pub open spec fn signed_decimal(n: int) -> Seq<char> {
    if n < 0 {
        "-"@ + decimal((-n) as nat)
    } else {
        decimal(n as nat)
    }
}

/// Debug text of an optional exit code: `Some(n)` or `None`.
pub open spec fn code_text(code: Option<i32>) -> Seq<char> {
    match code {
        Some(n) => "Some("@ + signed_decimal(n as int) + ")"@,
        None => "None"@,
    }
}

/// `true` or `false`.
pub open spec fn bool_text(b: bool) -> Seq<char> {
    if b {
        "true"@
    } else {
        "false"@
    }
}

/// The verbose display of one OpenSSL run: the command, its status and exit code, and
/// how many bytes it wrote to each stream (never what it wrote).
pub open spec fn run_lines(c: CommandReport) -> Seq<Seq<char>> {
    command_lines(c.argv.deep_view(), ""@) + seq![
        "status: "@ + bool_text(c.success) + " (exit code: "@ + code_text(c.code) + ")"@,
        "stdout: "@ + decimal(c.stdout_bytes as nat) + " bytes"@,
        "stderr: "@ + decimal(c.stderr_bytes as nat) + " bytes"@,
    ]
}

/// The verbose display of a list of OpenSSL runs, in order.
pub open spec fn runs_lines(cs: Seq<CommandReport>) -> Seq<Seq<char>>
    decreases cs.len(),
{
    if cs.len() == 0 {
        Seq::empty()
    } else {
        runs_lines(cs.drop_last()) + run_lines(cs.last())
    }
}

fn code_string(code: Option<i32>) -> (r: String)
    ensures
        r@ == code_text(code),
{
    match code {
        Some(n) => {
            let mut r = owned("Some(");
            if n < 0 {
                let m: i64 = n as i64;
                let digits = decimal_string((0i64 - m) as u64);
                r.append("-");
                r.append(digits.as_str());
            } else {
                let digits = decimal_string(n as u64);
                r.append(digits.as_str());
            }
            r.append(")");
            r
        },
        None => owned("None"),
    }
}

fn run_display(c: &CommandReport) -> (r: Vec<String>)
    ensures
        r.deep_view() == run_lines(*c),
{
    let mut r = multiline_command(c.argv.as_slice(), "");
    assert(c.argv@.map_values(|a: String| a@) =~= c.argv.deep_view());
    let mut status = owned("status: ");
    status.append(if c.success {
        "true"
    } else {
        "false"
    });
    status.append(" (exit code: ");
    let code = code_string(c.code);
    status.append(code.as_str());
    status.append(")");
    let mut out = owned("stdout: ");
    let n = decimal_string(c.stdout_bytes as u64);
    out.append(n.as_str());
    out.append(" bytes");
    let mut err = owned("stderr: ");
    let m = decimal_string(c.stderr_bytes as u64);
    err.append(m.as_str());
    err.append(" bytes");
    let ghost before = r.deep_view();
    r.push(status);
    r.push(out);
    r.push(err);
    assert(r.deep_view() =~= run_lines(*c));
    r
}

/// The verbose display of the OpenSSL runs of an operation.
pub fn verbose_commands(commands: &[CommandReport]) -> (r: Vec<String>)
    ensures
        r.deep_view() == runs_lines(commands@),
{
    let mut r: Vec<String> = Vec::new();
    let mut i: usize = 0;
    assert(commands@.take(0) =~= Seq::<CommandReport>::empty());
    while i < commands.len()
        invariant
            i <= commands@.len(),
            r.deep_view() == runs_lines(commands@.take(i as int)),
        decreases commands.len() - i,
    {
        let lines = run_display(&commands[i]);
        assert(commands@.take(i + 1).drop_last() =~= commands@.take(i as int));
        extend_strings(&mut r, &lines);
        i = i + 1;
    }
    assert(commands@.take(i as int) =~= commands@);
    r
}

/// The run at `i` is the first whose arguments hold the target path exactly.
pub open spec fn first_creator_at(target: Seq<char>, cs: Seq<CommandReport>, i: int) -> bool {
    &&& 0 <= i < cs.len()
    &&& creates(cs[i], target)
    &&& forall|k: int| 0 <= k < i ==> !creates(#[trigger] cs[k], target)
}

/// The index of the first run that created the target, if any did.
pub open spec fn first_creator(target: Seq<char>, cs: Seq<CommandReport>) -> Option<int> {
    if exists|i: int| first_creator_at(target, cs, i) {
        Some(choose|i: int| first_creator_at(target, cs, i))
    } else {
        None
    }
}

fn creator_of(commands: &[CommandReport], target: &str) -> (r: Option<usize>)
    ensures
        r == match first_creator(target@, commands@) {
            Some(i) => Some(i as usize),
            None => None::<usize>,
        },
{
    let mut i: usize = 0;
    while i < commands.len()
        invariant
            i <= commands@.len(),
            forall|k: int| 0 <= k < i ==> !creates(#[trigger] commands@[k], target@),
        decreases commands.len() - i,
    {
        if command_creates(&commands[i], target) {
            assert(first_creator_at(target@, commands@, i as int));
            proof {
                let j = choose|j: int| first_creator_at(target@, commands@, j);
                if j < i {
                    assert(!first_creator_at(target@, commands@, j));
                } else if j > i {
                    assert(!first_creator_at(target@, commands@, j));
                }
            }
            return Some(i);
        }
        i = i + 1;
    }
    assert(!exists|j: int| first_creator_at(target@, commands@, j));
    None
}

/// What was found at a created path: `None` when it is no regular file, `Some(None)` when
/// its text was not read, `Some(Some(text))` when it was.
pub open spec fn found_view(f: Option<Option<String>>) -> Option<Option<Seq<char>>> {
    match f {
        None => None,
        Some(None) => Some(None),
        Some(Some(t)) => Some(Some(t@)),
    }
}

/// The display lines for one created path: nothing when it is no regular file; otherwise
/// its path, creator, purpose and method, the first run that names it exactly, and its
/// contents unless the path is sensitive or the text could not be read.
pub open spec fn created_entry(
    dir: Seq<char>,
    r: Seq<char>,
    found: Option<Option<Seq<char>>>,
    cs: Seq<CommandReport>,
) -> Seq<Seq<char>> {
    match found {
        None => Seq::empty(),
        Some(text) => {
            let target = path_join(dir, r);
            let p = provenance(r);
            seq![
                "  file: "@ + r,
                "  created by: "@ + p.0,
                "  purpose: "@ + p.1,
                "  method: "@ + p.2,
            ] + match first_creator(target, cs) {
                Some(i) => seq!["  command:"@] + command_lines(cs[i].argv.deep_view(), "    "@),
                None => Seq::empty(),
            } + if sensitive(target) {
                seq!["  contents: hidden; sensitive file"@]
            } else {
                match text {
                    Some(t) => seq!["  contents:"@, t],
                    None => seq!["  contents: hidden; binary or unreadable"@],
                }
            }
        },
    }
}

/// The entries of the created paths, in order.
pub open spec fn created_entries(
    dir: Seq<char>,
    paths: Seq<Seq<char>>,
    found: Seq<Option<Option<Seq<char>>>>,
    cs: Seq<CommandReport>,
) -> Seq<Seq<char>>
    decreases paths.len(),
{
    if paths.len() == 0 {
        Seq::empty()
    } else {
        created_entries(dir, paths.drop_last(), found.drop_last(), cs) + created_entry(
            dir,
            paths.last(),
            found[paths.len() - 1],
            cs,
        )
    }
}

fn created_display(
    dir: &str,
    relative: &str,
    found: &Option<Option<String>>,
    commands: &[CommandReport],
) -> (r: Vec<String>)
    ensures
        r.deep_view() == created_entry(dir@, relative@, found_view(*found), commands@),
{
    let mut r: Vec<String> = Vec::new();
    match found {
        None => {
            assert(r.deep_view() =~= created_entry(dir@, relative@, found_view(*found), commands@));
            r
        },
        Some(text) => {
            let target = join_path(dir, relative);
            let (creator, purpose, method) = artifact_provenance(relative);
            r.push(line_of("  file: ", relative));
            r.push(line_of("  created by: ", creator));
            r.push(line_of("  purpose: ", purpose));
            r.push(line_of("  method: ", method));
            let ghost head = r.deep_view();
            let ghost pv = provenance(relative@);
            assert(head =~= seq![
                "  file: "@ + relative@,
                "  created by: "@ + pv.0,
                "  purpose: "@ + pv.1,
                "  method: "@ + pv.2,
            ]);
            let ghost cmd_part = match first_creator(target@, commands@) {
                Some(k) => seq!["  command:"@] + command_lines(commands@[k].argv.deep_view(), "    "@),
                None => Seq::<Seq<char>>::empty(),
            };
            match creator_of(commands, target.as_str()) {
                Some(i) => {
                    r.push(owned("  command:"));
                    let lines = multiline_command(commands[i].argv.as_slice(), "    ");
                    assert(commands@[i as int].argv@.map_values(|a: String| a@)
                        =~= commands@[i as int].argv.deep_view());
                    extend_strings(&mut r, &lines);
                },
                None => {},
            }
            assert(r.deep_view() =~= head + cmd_part);
            let ghost middle = r.deep_view();
            let ghost content_part = if sensitive(target@) {
                seq!["  contents: hidden; sensitive file"@]
            } else {
                match found_view(*found) {
                    Some(Some(t)) => seq!["  contents:"@, t],
                    _ => seq!["  contents: hidden; binary or unreadable"@],
                }
            };
            if is_sensitive_path(target.as_str()) {
                r.push(owned("  contents: hidden; sensitive file"));
            } else {
                match text {
                    Some(t) => {
                        r.push(owned("  contents:"));
                        r.push(t.clone());
                    },
                    None => {
                        r.push(owned("  contents: hidden; binary or unreadable"));
                    },
                }
            }
            assert(r.deep_view() =~= middle + content_part);
            assert(r.deep_view() =~= created_entry(dir@, relative@, found_view(*found), commands@));
            r
        },
    }
}

/// The verbose display of the files an operation created: for each listed path that is a
/// regular file, where it came from and, unless sensitive, what it holds.
pub fn created_files(
    dir: &str,
    paths: &[String],
    found: &[Option<Option<String>>],
    commands: &[CommandReport],
) -> (r: Vec<String>)
    requires
        paths@.len() == found@.len(),
    ensures
        r.deep_view() == seq!["created files:"@] + created_entries(
            dir@,
            paths@.map_values(|p: String| p@),
            found@.map_values(|f: Option<Option<String>>| found_view(f)),
            commands@,
        ),
{
    let ghost pv = paths@.map_values(|p: String| p@);
    let ghost fv = found@.map_values(|f: Option<Option<String>>| found_view(f));
    let mut r: Vec<String> = Vec::new();
    r.push(owned("created files:"));
    let mut i: usize = 0;
    assert(pv.take(0) =~= Seq::<Seq<char>>::empty());
    while i < paths.len()
        invariant
            pv == paths@.map_values(|p: String| p@),
            fv == found@.map_values(|f: Option<Option<String>>| found_view(f)),
            paths@.len() == found@.len(),
            i <= pv.len(),
            r.deep_view() == seq!["created files:"@] + created_entries(
                dir@,
                pv.take(i as int),
                fv.take(i as int),
                commands@,
            ),
        decreases paths.len() - i,
    {
        let entry = created_display(dir, paths[i].as_str(), &found[i], commands);
        assert(pv.take(i + 1).drop_last() =~= pv.take(i as int));
        assert(fv.take(i + 1).drop_last() =~= fv.take(i as int));
        extend_strings(&mut r, &entry);
        i = i + 1;
    }
    assert(pv.take(i as int) =~= pv);
    assert(fv.take(i as int) =~= fv);
    r
}


/// The human display of a successful report: with certificates, the verbose runs, the
/// summary line and the hierarchy; otherwise the verbose runs (and, for a dry run, where
/// each planned artifact comes from), the plan, the summary line and each path.
pub fn human_report(report: &Report, verbose: bool) -> (r: Vec<String>)
    ensures
        match report.certificates {
            Some(c) => exists|t: Seq<char>|
                tree_text(c@, t) && r.deep_view() == (if verbose {
                    runs_lines(report.commands@)
                } else {
                    Seq::empty()
                }) + seq!["ok: "@ + report.message@, t],
            None => r.deep_view() == (if verbose {
                runs_lines(report.commands@) + if report.dry_run {
                    planned_provenance_lines(report@)
                } else {
                    Seq::empty()
                }
            } else {
                Seq::empty()
            }) + plan_lines(report@) + seq!["ok: "@ + report.message@] + report.paths.deep_view(),
        },
{
    let mut r: Vec<String> = Vec::new();
    if verbose {
        let runs = verbose_commands(report.commands.as_slice());
        extend_strings(&mut r, &runs);
    }
    let ghost head = r.deep_view();
    match &report.certificates {
        Some(certificates) => {
            r.push(line_of("ok: ", report.message.as_str()));
            let tree = render_tree(certificates.as_slice());
            r.push(tree);
            assert(r.deep_view() =~= head + seq!["ok: "@ + report.message@, tree@]);
        },
        None => {
            if verbose && report.dry_run {
                let provenance = planned_provenance(report);
                extend_strings(&mut r, &provenance);
            }
            let ghost middle = r.deep_view();
            let plan = planned_root(report);
            extend_strings(&mut r, &plan);
            r.push(line_of("ok: ", report.message.as_str()));
            extend_strings(&mut r, &report.paths);
            assert(r.deep_view() =~= middle + plan_lines(report@) + seq!["ok: "@ + report.message@]
                + report.paths.deep_view());
        },
    }
    r
}

} // verus!
