//! Passphrases: checking supplied ones and generating new ones.
use vstd::prelude::*;
use crate::model::Failure;
use crate::text::{chars_of, owned, push_char, string_of, split_on, split_text, starts_with, text_eq, text_starts_with};

verus! {

/// Reads 32 bytes from the operating system's secure random source.
///
/// Trusted: calls `getrandom::fill` on a 32-byte buffer. On success the buffer is handed
/// back, so the contract states only its length; which bytes come back is chance and is
/// not stated. An error is handed back as its display text.
#[verifier::external_body]
fn secure_random_bytes() -> (r: Result<Vec<u8>, String>)
    ensures
        r matches Ok(bytes) ==> bytes@.len() == 32,
{
    let mut bytes = [0u8; 32];
    match getrandom::fill(&mut bytes) {
        Ok(()) => Ok(bytes.to_vec()),
        Err(error) => Err(error.to_string()),
    }
}

/// The lowercase hexadecimal digit for `d` (below 16).
pub open spec fn hex_digit(d: nat) -> char {
    if d < 10 {
        ((48 + d) as u32) as char
    } else {
        ((87 + d) as u32) as char
    }
}

/// Two lowercase hexadecimal digits per byte, most significant first.
pub open spec fn hex_text(bytes: Seq<u8>) -> Seq<char>
    decreases bytes.len(),
{
    if bytes.len() == 0 {
        Seq::empty()
    } else {
        hex_text(bytes.drop_last()) + seq![
            hex_digit((bytes.last() / 16) as nat),
            hex_digit((bytes.last() % 16) as nat),
        ]
    }
}

fn hex_char(d: u8) -> (c: char)
    requires
        d < 16,
    ensures
        c == hex_digit(d as nat),
{
    if d < 10 {
        (d + 48) as char
    } else {
        (d + 87) as char
    }
}

/// Lowercase hexadecimal text of the bytes.
pub fn hex_encode(bytes: &[u8]) -> (r: String)
    ensures
        r@ == hex_text(bytes@),
        r@.len() == 2 * bytes@.len(),
{
    let mut r = String::new();
    let mut i: usize = 0;
    while i < bytes.len()
        invariant
            i <= bytes@.len(),
            r@ == hex_text(bytes@.take(i as int)),
            r@.len() == 2 * i,
        decreases bytes.len() - i,
    {
        let b = bytes[i];
        push_char(&mut r, hex_char(b / 16));
        push_char(&mut r, hex_char(b % 16));
        assert(bytes@.take(i + 1).drop_last() =~= bytes@.take(i as int));
        i = i + 1;
        assert(r@ =~= hex_text(bytes@.take(i as int)));
    }
    assert(bytes@.take(i as int) =~= bytes@);
    r
}

/// A lowercase hexadecimal digit.
pub open spec fn is_lower_hex(c: char) -> bool {
    (48 <= (c as u32) <= 57) || (97 <= (c as u32) <= 102)
}

proof fn lemma_hex_text_lower(bytes: Seq<u8>)
    ensures
        forall|i: int| 0 <= i < hex_text(bytes).len() ==> is_lower_hex(#[trigger] hex_text(bytes)[i]),
        hex_text(bytes).len() == 2 * bytes.len(),
    decreases bytes.len(),
{
    if bytes.len() > 0 {
        lemma_hex_text_lower(bytes.drop_last());
        let h = hex_text(bytes);
        let p = hex_text(bytes.drop_last());
        assert forall|i: int| 0 <= i < h.len() implies is_lower_hex(#[trigger] h[i]) by {
            if i < p.len() {
                assert(h[i] == p[i]);
            }
        }
    }
}

/// A new passphrase: 32 secure random bytes as 64 lowercase hexadecimal characters.
pub fn random_passphrase() -> (r: Result<String, Failure>)
    ensures
        match r {
            Ok(value) => value@.len() == 64 && (exists|bytes: Seq<u8>|
                bytes.len() == 32 && value@ == hex_text(bytes)) && forall|i: int|
                0 <= i < value@.len() ==> is_lower_hex(#[trigger] value@[i]),
            Err(e) => e.0 == 6 && exists|detail: Seq<char>|
                e.1@ == "cannot generate secure passphrase: "@ + detail,
        },
{
    match secure_random_bytes() {
        Ok(bytes) => {
            let value = hex_encode(bytes.as_slice());
            proof {
                lemma_hex_text_lower(bytes@);
            }
            Ok(value)
        },
        Err(detail) => {
            let mut message = owned("cannot generate secure passphrase: ");
            message.append(detail.as_str());
            Err((6, message))
        },
    }
}

/// A path that steps up out of a directory: one of its `/`-separated components is `..`.
pub open spec fn steps_up(path: Seq<char>) -> bool {
    split_on(path, '/').contains(".."@)
}

/// Where a passphrase file named by `path` lies inside the PKI directory `dir`: the part of
/// the path below `dir` (the whole path when it is relative and does not start with `dir`)
/// never steps up, and an absolute path starts with `dir`.
pub open spec fn within_dir(dir: Seq<char>, path: Seq<char>) -> bool {
    let below = dir + "/"@;
    if starts_with(path, below) {
        !steps_up(path.subrange(below.len() as int, path.len() as int))
    } else {
        !starts_with(path, "/"@) && !steps_up(path)
    }
}

/// What a passphrase file must be before its contents are read, given what the file system
/// says of it: a regular file (not a symlink), inside the PKI directory, owned by the
/// current user, and with no permission beyond reading and writing by its owner (mode 0600
/// or stricter: none of the bits of 0177); each
/// refusal has code 4.
pub open spec fn passphrase_file_rule(
    dir: Seq<char>,
    path: Seq<char>,
    regular: bool,
    mode: u32,
    owned_by_user: bool,
) -> Result<(), (u8, Seq<char>)> {
    if !regular {
        Err((4, "passphrase file must be a regular file"@))
    } else if !within_dir(dir, path) {
        Err((4, "passphrase file must be inside --dir"@))
    } else if !owned_by_user {
        Err((4, "passphrase file must be owned by the current user"@))
    } else if mode % 128 != 0 {
        Err((4, "passphrase file must have mode 0600 or stricter"@))
    } else {
        Ok(())
    }
}

fn has_step_up(path: &str) -> (r: bool)
    ensures
        r == steps_up(path@),
{
    let parts = split_text(path, '/');
    let mut i: usize = 0;
    while i < parts.len()
        invariant
            i <= parts@.len(),
            parts.deep_view() == split_on(path@, '/'),
            forall|k: int| 0 <= k < i ==> parts.deep_view()[k] != ".."@,
        decreases parts.len() - i,
    {
        if text_eq(parts[i].as_str(), "..") {
            assert(parts.deep_view()[i as int] == ".."@);
            assert(split_on(path@, '/').contains(".."@));
            return true;
        }
        i = i + 1;
    }
    proof {
        if split_on(path@, '/').contains(".."@) {
            let k = choose|k: int| 0 <= k < split_on(path@, '/').len() && split_on(path@, '/')[k] == ".."@;
            assert(parts.deep_view()[k] == ".."@);
        }
    }
    false
}

/// Checks a passphrase file against `passphrase_file_rule`, given the PKI directory, the
/// file's path as given, and what the file system says of it (`mode` holds the permission
/// bits).
pub fn check_passphrase_file(dir: &str, path: &str, regular: bool, mode: u32, owned_by_user: bool) -> (r: Result<
    (),
    Failure,
>)
    ensures
        match r {
            Ok(()) => passphrase_file_rule(dir@, path@, regular, mode, owned_by_user) is Ok,
            Err(e) => passphrase_file_rule(dir@, path@, regular, mode, owned_by_user) == Err::<
                (),
                (u8, Seq<char>),
            >((e.0, e.1@)),
        },
{
    if !regular {
        return Err((4, owned("passphrase file must be a regular file")));
    }
    let mut below = owned(dir);
    below.append("/");
    let inside = if text_starts_with(path, below.as_str()) {
        let v = chars_of(path);
        let start = chars_of(below.as_str()).len();
        let rest = string_of(v.as_slice(), start, v.len());
        assert(rest@ =~= path@.subrange(below@.len() as int, path@.len() as int));
        !has_step_up(rest.as_str())
    } else {
        !text_starts_with(path, "/") && !has_step_up(path)
    };
    if !inside {
        return Err((4, owned("passphrase file must be inside --dir")));
    }
    if !owned_by_user {
        return Err((4, owned("passphrase file must be owned by the current user")));
    }
    if mode % 128 != 0 {
        return Err((4, owned("passphrase file must have mode 0600 or stricter")));
    }
    Ok(())
}

/// The text with every trailing `\r` and `\n` removed.
pub open spec fn trim_line_ends(s: Seq<char>) -> Seq<char>
    decreases s.len(),
{
    if s.len() > 0 && (s.last() == '\r' || s.last() == '\n') {
        trim_line_ends(s.drop_last())
    } else {
        s
    }
}

/// What a passphrase file must hold: one nonempty line, trailing line ends aside.
pub open spec fn passphrase_ok(contents: Seq<char>) -> bool {
    trim_line_ends(contents).len() > 0 && !trim_line_ends(contents).contains('\n')
}

/// The passphrase held by the contents of a passphrase file: the text without trailing
/// line ends, which must be one nonempty line.
pub fn passphrase_from_contents(contents: &str) -> (r: Result<String, Failure>)
    ensures
        match r {
            Ok(value) => passphrase_ok(contents@) && value@ == trim_line_ends(contents@),
            Err(e) => !passphrase_ok(contents@) && e.0 == 4 && e.1@
                == "passphrase file must contain one nonempty line"@,
        },
{
    let v = chars_of(contents);
    let mut end = v.len();
    assert(v@.subrange(0, end as int) =~= v@);
    while end > 0 && (v[end - 1] == '\r' || v[end - 1] == '\n')
        invariant
            v@ == contents@,
            end <= v@.len(),
            trim_line_ends(v@.subrange(0, end as int)) == trim_line_ends(contents@),
        decreases end,
    {
        assert(v@.subrange(0, end as int).drop_last() =~= v@.subrange(0, end - 1));
        end = end - 1;
    }
    let ghost t = v@.subrange(0, end as int);
    assert(trim_line_ends(t) == t);
    let mut has_newline = false;
    let mut i: usize = 0;
    while i < end
        invariant
            end <= v@.len(),
            t == v@.subrange(0, end as int),
            i <= end,
            has_newline == exists|k: int| 0 <= k < i && t[k] == '\n',
        decreases end - i,
    {
        if v[i] == '\n' {
            has_newline = true;
            assert(t[i as int] == '\n');
        }
        i = i + 1;
    }
    if end == 0 || has_newline {
        return Err((4, owned("passphrase file must contain one nonempty line")));
    }
    assert(!t.contains('\n'));
    Ok(string_of(v.as_slice(), 0, end))
}

/// The passphrase for a new key: the one held by supplied passphrase-file contents, or a
/// freshly generated one when none is supplied.
pub fn passphrase(supplied: Option<&str>) -> (r: Result<String, Failure>)
    ensures
        match supplied {
            Some(contents) => match r {
                Ok(value) => passphrase_ok(contents@) && value@ == trim_line_ends(contents@),
                Err(e) => !passphrase_ok(contents@) && e.0 == 4 && e.1@
                    == "passphrase file must contain one nonempty line"@,
            },
            None => match r {
                Ok(value) => value@.len() == 64 && exists|bytes: Seq<u8>|
                    bytes.len() == 32 && value@ == hex_text(bytes),
                Err(e) => e.0 == 6,
            },
        },
{
    match supplied {
        Some(contents) => passphrase_from_contents(contents),
        None => random_passphrase(),
    }
}

/// How the passphrase of a new key is chosen: generated (no option, or `--passphrase-file
/// AUTO`), read from an existing file, given as a value, prompted for, or none at all
/// (`--passphrase NONE`: the key is not encrypted and no passphrase file is written).
#[derive(Debug)]
pub enum PassphraseChoice {
    Generate,
    File(String),
    Value(String),
    Prompt,
    Unencrypted,
}

/// A passphrase choice with its texts as sequences of characters.
pub enum ChoiceView {
    Generate,
    File(Seq<char>),
    Value(Seq<char>),
    Prompt,
    Unencrypted,
}

impl View for PassphraseChoice {
    type V = ChoiceView;

    open spec fn view(&self) -> ChoiceView {
        match self {
            PassphraseChoice::Generate => ChoiceView::Generate,
            PassphraseChoice::File(p) => ChoiceView::File(p@),
            PassphraseChoice::Value(v) => ChoiceView::Value(v@),
            PassphraseChoice::Prompt => ChoiceView::Prompt,
            PassphraseChoice::Unencrypted => ChoiceView::Unencrypted,
        }
    }
}

/// The choice that `--passphrase` and `--passphrase-file` make: `--passphrase-file AUTO`
/// or neither option generates one, another file is read, `--passphrase PROMPT` prompts,
/// `--passphrase NONE` leaves the key unencrypted, and another value is the passphrase
/// itself without trailing line ends.
pub open spec fn choice_of(passphrase: Option<String>, file: Option<String>) -> ChoiceView {
    match file {
        Some(f) => if f@ == "AUTO"@ {
            ChoiceView::Generate
        } else {
            ChoiceView::File(f@)
        },
        None => match passphrase {
            Some(v) => if v@ == "PROMPT"@ {
                ChoiceView::Prompt
            } else if v@ == "NONE"@ {
                ChoiceView::Unencrypted
            } else {
                ChoiceView::Value(trim_line_ends(v@))
            },
            None => ChoiceView::Generate,
        },
    }
}

/// What is wrong with the passphrase options, if anything: both given (code 2), or a
/// passphrase value that is not one nonempty line (code 4).
pub open spec fn choice_error(passphrase: Option<String>, file: Option<String>) -> Option<(u8, Seq<char>)> {
    if passphrase is Some && file is Some {
        Some((2, "--passphrase and --passphrase-file cannot be combined"@))
    } else {
        match passphrase {
            Some(v) => if v@ != "PROMPT"@ && v@ != "NONE"@ && !passphrase_ok(v@) {
                Some((4, "--passphrase must be one nonempty line"@))
            } else {
                None
            },
            None => None,
        }
    }
}

/// Whether a choice encrypts the new key.
pub open spec fn encrypts(c: ChoiceView) -> bool {
    !(c is Unencrypted)
}

/// Whether a choice writes a new passphrase file of its own (generated, given or prompted).
pub open spec fn writes_new_passphrase(c: ChoiceView) -> bool {
    c is Generate || c is Value || c is Prompt
}

/// Makes the choice that the passphrase options name.
pub fn passphrase_choice(passphrase: &Option<String>, file: &Option<String>) -> (r: PassphraseChoice)
    ensures
        r@ == choice_of(*passphrase, *file),
{
    match file {
        Some(f) => if text_eq(f.as_str(), "AUTO") {
            PassphraseChoice::Generate
        } else {
            PassphraseChoice::File(f.clone())
        },
        None => match passphrase {
            Some(v) => if text_eq(v.as_str(), "PROMPT") {
                PassphraseChoice::Prompt
            } else if text_eq(v.as_str(), "NONE") {
                PassphraseChoice::Unencrypted
            } else {
                PassphraseChoice::Value(without_line_ends(v.as_str()))
            },
            None => PassphraseChoice::Generate,
        },
    }
}

/// Checks the passphrase options as `choice_error` says.
pub fn check_passphrase_options(passphrase: &Option<String>, file: &Option<String>) -> (r: Result<(), Failure>)
    ensures
        match r {
            Ok(()) => choice_error(*passphrase, *file) is None,
            Err(e) => choice_error(*passphrase, *file) == Some((e.0, e.1@)),
        },
{
    if passphrase.is_some() && file.is_some() {
        return Err((2, owned("--passphrase and --passphrase-file cannot be combined")));
    }
    match passphrase {
        Some(v) => {
            if !text_eq(v.as_str(), "PROMPT") && !text_eq(v.as_str(), "NONE") {
                match passphrase_from_contents(v.as_str()) {
                    Ok(_) => {},
                    Err(_) => {
                        return Err((4, owned("--passphrase must be one nonempty line")));
                    },
                }
            }
            Ok(())
        },
        None => Ok(()),
    }
}

/// The text without its trailing line ends.
pub fn without_line_ends(contents: &str) -> (r: String)
    ensures
        r@ == trim_line_ends(contents@),
{
    let v = chars_of(contents);
    let mut end = v.len();
    assert(v@.subrange(0, end as int) =~= v@);
    while end > 0 && (v[end - 1] == '\r' || v[end - 1] == '\n')
        invariant
            v@ == contents@,
            end <= v@.len(),
            trim_line_ends(v@.subrange(0, end as int)) == trim_line_ends(contents@),
        decreases end,
    {
        assert(v@.subrange(0, end as int).drop_last() =~= v@.subrange(0, end - 1));
        end = end - 1;
    }
    assert(trim_line_ends(v@.subrange(0, end as int)) == v@.subrange(0, end as int));
    string_of(v.as_slice(), 0, end)
}

/// Confirms a prompted passphrase: both entries, without trailing line ends, must be the
/// same nonempty line (code 4 otherwise).
pub fn confirm_prompted(first: &str, second: &str) -> (r: Result<String, Failure>)
    ensures
        match r {
            Ok(v) => passphrase_ok(first@) && trim_line_ends(first@) == trim_line_ends(second@) && v@
                == trim_line_ends(first@),
            Err(e) => e.0 == 4 && (!passphrase_ok(first@) || trim_line_ends(first@) != trim_line_ends(
                second@,
            )),
        },
{
    let a = match passphrase_from_contents(first) {
        Ok(a) => a,
        Err(_) => {
            return Err((4, owned("the passphrase must be one nonempty line")));
        },
    };
    let b = without_line_ends(second);
    if !text_eq(a.as_str(), b.as_str()) {
        return Err((4, owned("the two passphrases differ")));
    }
    Ok(a)
}

} // verus!
