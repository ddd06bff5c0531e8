//! The OpenSSL commands, extension files and artifacts of each operation.
use vstd::prelude::*;
use crate::model::{KeyUsage, Profile, CertificateDuration};
use crate::text::{decimal, decimal_string, join, joined, owned};
use crate::subject::{SubjectArgs, dn_text};
use crate::rules::{key_usages, usage_text};
use crate::layout::{join_path, path_join, path_below, relative_path};
use crate::secret::{choice_of, encrypts, passphrase_choice, PassphraseChoice};

verus! {

/// The options of a root CA operation.
#[derive(Debug)]
pub struct RootArgs {
    pub subject: SubjectArgs,
    pub name: String,
    pub profile: Profile,
    pub days: CertificateDuration,
    pub pathlen: Option<u32>,
    pub key_usage: Vec<KeyUsage>,
    pub passphrase: Option<String>,
    pub passphrase_file: Option<String>,
    pub do_it: bool,
}

/// The text of an optional borrowed text.
pub open spec fn opt_str(value: Option<&str>) -> Option<Seq<char>> {
    match value {
        Some(t) => Some(t@),
        None => None,
    }
}

/// The OpenSSL passphrase source that reads a passphrase file, if there is one.
pub open spec fn file_source(file: Option<Seq<char>>) -> Option<Seq<char>> {
    match file {
        Some(f) => Some("file:"@ + f),
        None => None,
    }
}

/// `openssl` followed by the arguments: a command as it is displayed.
pub open spec fn with_program(args: Seq<Seq<char>>) -> Seq<Seq<char>> {
    seq!["openssl"@] + args
}

/// The arguments that generate a key of a profile at `key`; an RSA key is encrypted with
/// the passphrase read from `source`, where there is one.
pub open spec fn key_args(profile: Profile, key: Seq<char>, source: Option<Seq<char>>) -> Seq<Seq<char>> {
    match profile {
        Profile::Rsa4096 => match source {
            Some(source) => seq!["genrsa"@, "-aes256"@, "-passout"@, source, "-out"@, key, "4096"@],
            None => seq!["genrsa"@, "-out"@, key, "4096"@],
        },
        Profile::EcdsaP256 => seq![
            "ecparam"@,
            "-name"@,
            "prime256v1"@,
            "-genkey"@,
            "-noout"@,
            "-out"@,
            key,
        ],
        Profile::Ed25519 => seq!["genpkey"@, "-algorithm"@, "ED25519"@, "-out"@, key],
    }
}

fn key_arguments(profile: Profile, key: &str, source: Option<&str>) -> (r: Vec<String>)
    ensures
        r.deep_view() == key_args(profile, key@, opt_str(source)),
{
    let r = match profile {
        Profile::Rsa4096 => match source {
            Some(source) => vec![
                owned("genrsa"),
                owned("-aes256"),
                owned("-passout"),
                owned(source),
                owned("-out"),
                owned(key),
                owned("4096"),
            ],
            None => vec![owned("genrsa"), owned("-out"), owned(key), owned("4096")],
        },
        Profile::EcdsaP256 => vec![
            owned("ecparam"),
            owned("-name"),
            owned("prime256v1"),
            owned("-genkey"),
            owned("-noout"),
            owned("-out"),
            owned(key),
        ],
        Profile::Ed25519 => vec![
            owned("genpkey"),
            owned("-algorithm"),
            owned("ED25519"),
            owned("-out"),
            owned(key),
        ],
    };
    assert(r.deep_view() =~= key_args(profile, key@, opt_str(source)));
    r
}

fn prefixed(args: Vec<String>) -> (r: Vec<String>)
    ensures
        r.deep_view() == with_program(args.deep_view()),
{
    let mut r = vec![owned("openssl")];
    let mut i: usize = 0;
    while i < args.len()
        invariant
            i <= args@.len(),
            r.deep_view() == with_program(args.deep_view().take(i as int)),
        decreases args.len() - i,
    {
        let ghost before = r.deep_view();
        r.push(args[i].clone());
        assert(r.deep_view() =~= before.push(args.deep_view()[i as int]));
        assert(args.deep_view().take(i + 1) =~= args.deep_view().take(i as int).push(args.deep_view()[i as int]));
        i = i + 1;
    }
    assert(args.deep_view().take(i as int) =~= args.deep_view());
    r
}

/// The OpenSSL arguments that generate the key of a profile at `path`; an RSA key is
/// encrypted under the passphrase stored in `passphrase_file`, the file that later
/// commands read the passphrase from, and left unencrypted when there is none.
pub fn generate_key(profile: Profile, path: &str, passphrase_file: Option<&str>) -> (r: Vec<String>)
    ensures
        r.deep_view() == key_args(profile, path@, file_source(opt_str(passphrase_file))),
{
    match passphrase_file {
        Some(f) => {
            let mut source = owned("file:");
            source.append(f);
            key_arguments(profile, path, Some(source.as_str()))
        },
        None => key_arguments(profile, path, None),
    }
}

/// The path-length suffix of a basic-constraints value.
pub open spec fn pathlen_suffix(pathlen: Option<u32>) -> Seq<char> {
    match pathlen {
        Some(v) => ",pathlen:"@ + decimal(v as nat),
        None => Seq::empty(),
    }
}

fn pathlen_text(pathlen: Option<u32>) -> (r: String)
    ensures
        r@ == pathlen_suffix(pathlen),
{
    match pathlen {
        Some(v) => {
            let mut r = owned(",pathlen:");
            let d = decimal_string(v as u64);
            r.append(d.as_str());
            r
        },
        None => String::new(),
    }
}

/// The arguments that create a self-signed root certificate; an RSA key is unlocked
/// with the passphrase read from `source`, where there is one.
pub open spec fn root_certificate_args(
    args: RootArgs,
    key: Seq<char>,
    cert: Seq<char>,
    days: nat,
    source: Option<Seq<char>>,
) -> Seq<Seq<char>> {
    seq!["req"@, "-x509"@, "-new"@, "-key"@, key] + (if args.profile == Profile::Rsa4096
        && source is Some {
        seq!["-passin"@, source.unwrap()]
    } else {
        Seq::empty()
    }) + seq![
        "-sha256"@,
        "-days"@,
        decimal(days),
        "-subj"@,
        dn_text(args.subject@),
        "-addext"@,
        "basicConstraints=critical,CA:TRUE"@ + pathlen_suffix(args.pathlen),
        "-addext"@,
        "keyUsage=critical,"@ + usage_text(args.key_usage@, true),
        "-out"@,
        cert,
    ]
}

/// The arguments that create a self-signed root certificate.
pub fn root_certificate_command(
    args: &RootArgs,
    key: &str,
    cert: &str,
    days: u32,
    source: Option<&str>,
) -> (r: Vec<String>)
    ensures
        r.deep_view() == root_certificate_args(*args, key@, cert@, days as nat, opt_str(source)),
{
    let mut r = vec![owned("req"), owned("-x509"), owned("-new"), owned("-key"), owned(key)];
    let ghost start = r.deep_view();
    if args.profile == Profile::Rsa4096 {
        match source {
            Some(src) => {
                r.push(owned("-passin"));
                r.push(owned(src));
            },
            None => {},
        }
    }
    let ghost middle = r.deep_view();
    let mut constraints = owned("basicConstraints=critical,CA:TRUE");
    let suffix = pathlen_text(args.pathlen);
    constraints.append(suffix.as_str());
    let mut usage = owned("keyUsage=critical,");
    let usages = key_usages(args.key_usage.as_slice(), true);
    usage.append(usages.as_str());
    let tail = vec![
        owned("-sha256"),
        owned("-days"),
        decimal_string(days as u64),
        owned("-subj"),
        args.subject.distinguished_name(),
        owned("-addext"),
        constraints,
        owned("-addext"),
        usage,
        owned("-out"),
        owned(cert),
    ];
    let ghost tv = tail.deep_view();
    let mut i: usize = 0;
    while i < tail.len()
        invariant
            i <= tail@.len(),
            tv == tail.deep_view(),
            r.deep_view() == middle + tv.take(i as int),
        decreases tail.len() - i,
    {
        let ghost before = r.deep_view();
        r.push(tail[i].clone());
        assert(r.deep_view() =~= before.push(tv[i as int]));
        assert(tv.take(i + 1) =~= tv.take(i as int).push(tv[i as int]));
        i = i + 1;
    }
    assert(tv.take(i as int) =~= tv);
    assert(r.deep_view() =~= root_certificate_args(*args, key@, cert@, days as nat, opt_str(source)));
    r
}

/// The passphrase source a dry run shows for a new key: a placeholder, or none for a key
/// left unencrypted.
pub open spec fn shown_source(encrypted: bool, placeholder: Seq<char>) -> Option<Seq<char>> {
    if encrypted {
        Some(placeholder)
    } else {
        None
    }
}

/// Builds the root CA commands for display, without running them: key generation and the
/// self-signed certificate. The passphrase file is shown as a placeholder, and left out for
/// a key that `--passphrase NONE` leaves unencrypted.
pub fn root_command_plan(args: &RootArgs, key: &str, cert: &str, days: u32) -> (r: Vec<Vec<String>>)
    ensures
        r.deep_view() == seq![
            with_program(
                key_args(
                    args.profile,
                    key@,
                    shown_source(
                        encrypts(choice_of(args.passphrase, args.passphrase_file)),
                        "file:<generated-or-supplied-passphrase>"@,
                    ),
                ),
            ),
            with_program(
                root_certificate_args(
                    *args,
                    key@,
                    cert@,
                    days as nat,
                    shown_source(
                        encrypts(choice_of(args.passphrase, args.passphrase_file)),
                        "file:<generated-or-supplied-passphrase>"@,
                    ),
                ),
            ),
        ],
{
    let choice = passphrase_choice(&args.passphrase, &args.passphrase_file);
    let source = match choice {
        PassphraseChoice::Unencrypted => None,
        _ => Some("file:<generated-or-supplied-passphrase>"),
    };
    proof {
        reveal_strlit("file:<generated-or-supplied-passphrase>");
    }
    let key_command = prefixed(key_arguments(args.profile, key, source));
    let certificate_command = prefixed(root_certificate_command(args, key, cert, days, source));
    let r = vec![key_command, certificate_command];
    assert(r.deep_view() =~= seq![
        with_program(
            key_args(
                args.profile,
                key@,
                shown_source(
                    encrypts(choice_of(args.passphrase, args.passphrase_file)),
                    "file:<generated-or-supplied-passphrase>"@,
                ),
            ),
        ),
        with_program(
            root_certificate_args(
                *args,
                key@,
                cert@,
                days as nat,
                shown_source(
                    encrypts(choice_of(args.passphrase, args.passphrase_file)),
                    "file:<generated-or-supplied-passphrase>"@,
                ),
            ),
        ),
    ]);
    r
}


/// Appends every string of `tail` to `r`.
pub fn extend_strings(r: &mut Vec<String>, tail: &Vec<String>)
    ensures
        final(r).deep_view() == old(r).deep_view() + tail.deep_view(),
{
    let ghost start = r.deep_view();
    let ghost tv = tail.deep_view();
    let mut i: usize = 0;
    while i < tail.len()
        invariant
            i <= tail@.len(),
            tv == tail.deep_view(),
            r.deep_view() == start + tv.take(i as int),
        decreases tail.len() - i,
    {
        let ghost before = r.deep_view();
        r.push(tail[i].clone());
        assert(r.deep_view() =~= before.push(tv[i as int]));
        assert(tv.take(i + 1) =~= tv.take(i as int).push(tv[i as int]));
        i = i + 1;
    }
    assert(tv.take(i as int) =~= tv);
}

/// The arguments that create a certificate signing request for the key at `key`, unlocked
/// with the passphrase read from `source`, where there is one.
pub open spec fn csr_args(key: Seq<char>, source: Option<Seq<char>>, subject: Seq<char>, csr: Seq<char>) -> Seq<
    Seq<char>,
> {
    match source {
        Some(source) => seq!["req"@, "-new"@, "-key"@, key, "-passin"@, source, "-subj"@, subject, "-out"@, csr],
        None => seq!["req"@, "-new"@, "-key"@, key, "-subj"@, subject, "-out"@, csr],
    }
}

/// The arguments that create a certificate signing request.
pub fn csr_command(key: &str, source: Option<&str>, subject: &SubjectArgs, csr: &str) -> (r: Vec<String>)
    ensures
        r.deep_view() == csr_args(key@, opt_str(source), dn_text(subject@), csr@),
{
    let r = match source {
        Some(source) => vec![
            owned("req"),
            owned("-new"),
            owned("-key"),
            owned(key),
            owned("-passin"),
            owned(source),
            owned("-subj"),
            subject.distinguished_name(),
            owned("-out"),
            owned(csr),
        ],
        None => vec![
            owned("req"),
            owned("-new"),
            owned("-key"),
            owned(key),
            owned("-subj"),
            subject.distinguished_name(),
            owned("-out"),
            owned(csr),
        ],
    };
    assert(r.deep_view() =~= csr_args(key@, opt_str(source), dn_text(subject@), csr@));
    r
}

/// The arguments that sign the request `csr` with a CA certificate and key, unlocked with
/// the passphrase read from `source`, for `days` days under `serial` and with an extension file.
pub open spec fn sign_args(
    csr: Seq<char>,
    ca_cert: Seq<char>,
    ca_key: Seq<char>,
    source: Seq<char>,
    days: nat,
    serial: Seq<char>,
    extension: Seq<char>,
    cert: Seq<char>,
) -> Seq<Seq<char>> {
    seq![
        "x509"@,
        "-req"@,
        "-in"@,
        csr,
        "-CA"@,
        ca_cert,
        "-CAkey"@,
        ca_key,
        "-passin"@,
        source,
        "-days"@,
        decimal(days),
        "-set_serial"@,
        serial,
        "-extfile"@,
        extension,
        "-out"@,
        cert,
    ]
}

/// The arguments that sign a certificate signing request.
pub fn sign_command(
    csr: &str,
    ca_cert: &str,
    ca_key: &str,
    source: &str,
    days: u32,
    serial: &str,
    extension: &str,
    cert: &str,
) -> (r: Vec<String>)
    ensures
        r.deep_view() == sign_args(
            csr@,
            ca_cert@,
            ca_key@,
            source@,
            days as nat,
            serial@,
            extension@,
            cert@,
        ),
{
    let r = vec![
        owned("x509"),
        owned("-req"),
        owned("-in"),
        owned(csr),
        owned("-CA"),
        owned(ca_cert),
        owned("-CAkey"),
        owned(ca_key),
        owned("-passin"),
        owned(source),
        owned("-days"),
        decimal_string(days as u64),
        owned("-set_serial"),
        owned(serial),
        owned("-extfile"),
        owned(extension),
        owned("-out"),
        owned(cert),
    ];
    assert(r.deep_view() =~= sign_args(
        csr@,
        ca_cert@,
        ca_key@,
        source@,
        days as nat,
        serial@,
        extension@,
        cert@,
    ));
    r
}

/// Builds the intermediate CA commands for display, without running them: key generation,
/// the signing request and the signature by the parent under `serial`, with passphrase
/// placeholders.
pub fn intermediate_command_plan(
    profile: Profile,
    key: &str,
    csr: &str,
    cert: &str,
    parent_cert: &str,
    parent_key: &str,
    extension: &str,
    subject: &SubjectArgs,
    days: u32,
    usages: &[KeyUsage],
    serial: &str,
    encrypted: bool,
) -> (r: Vec<Vec<String>>)
    ensures
        r.deep_view() == seq![
            with_program(key_args(profile, key@, shown_source(encrypted, "file:<child-passphrase>"@))),
            with_program(csr_args(key@, shown_source(encrypted, "file:<child-passphrase>"@), dn_text(subject@), csr@)),
            with_program(
                sign_args(
                    csr@,
                    parent_cert@,
                    parent_key@,
                    "file:<parent-passphrase>"@,
                    days as nat,
                    serial@,
                    extension@,
                    cert@,
                ),
            ),
        ],
{
    let source = if encrypted {
        Some("file:<child-passphrase>")
    } else {
        None
    };
    let key_command = prefixed(key_arguments(profile, key, source));
    let csr_command = prefixed(csr_command(key, source, subject, csr));
    let signing_command = prefixed(
        sign_command(csr, parent_cert, parent_key, "file:<parent-passphrase>", days, serial, extension, cert),
    );
    let r = vec![key_command, csr_command, signing_command];
    assert(r.deep_view() =~= seq![
        with_program(key_args(profile, key@, shown_source(encrypted, "file:<child-passphrase>"@))),
        with_program(csr_args(key@, shown_source(encrypted, "file:<child-passphrase>"@), dn_text(subject@), csr@)),
        with_program(
            sign_args(
                csr@,
                parent_cert@,
                parent_key@,
                "file:<parent-passphrase>"@,
                days as nat,
                serial@,
                extension@,
                cert@,
            ),
        ),
    ]);
    r
}

/// Builds the leaf certificate commands for display, without running them: key
/// generation, the signing request and the signature by the issuer under `serial`, with
/// passphrase placeholders.
pub fn certificate_command_plan(
    profile: Profile,
    key: &str,
    csr: &str,
    cert: &str,
    issuer_cert: &str,
    issuer_key: &str,
    extension: &str,
    subject: &SubjectArgs,
    days: u32,
    serial: &str,
    encrypted: bool,
) -> (r: Vec<Vec<String>>)
    ensures
        r.deep_view() == seq![
            with_program(key_args(profile, key@, shown_source(encrypted, "file:<leaf-passphrase>"@))),
            with_program(csr_args(key@, shown_source(encrypted, "file:<leaf-passphrase>"@), dn_text(subject@), csr@)),
            with_program(
                sign_args(
                    csr@,
                    issuer_cert@,
                    issuer_key@,
                    "file:<issuer-passphrase>"@,
                    days as nat,
                    serial@,
                    extension@,
                    cert@,
                ),
            ),
        ],
{
    let source = if encrypted {
        Some("file:<leaf-passphrase>")
    } else {
        None
    };
    let key_command = prefixed(key_arguments(profile, key, source));
    let csr_command = prefixed(csr_command(key, source, subject, csr));
    let signing_command = prefixed(
        sign_command(csr, issuer_cert, issuer_key, "file:<issuer-passphrase>", days, serial, extension, cert),
    );
    let r = vec![key_command, csr_command, signing_command];
    assert(r.deep_view() =~= seq![
        with_program(key_args(profile, key@, shown_source(encrypted, "file:<leaf-passphrase>"@))),
        with_program(csr_args(key@, shown_source(encrypted, "file:<leaf-passphrase>"@), dn_text(subject@), csr@)),
        with_program(
            sign_args(
                csr@,
                issuer_cert@,
                issuer_key@,
                "file:<issuer-passphrase>"@,
                days as nat,
                serial@,
                extension@,
                cert@,
            ),
        ),
    ]);
    r
}

/// The display path of `part` inside `target`, relative to `dir`.
pub open spec fn artifact(dir: Seq<char>, target: Seq<char>, part: Seq<char>) -> Seq<char> {
    path_below(dir, path_join(target, part))
}

fn artifact_of(dir: &str, target: &str, part: &str) -> (r: String)
    ensures
        r@ == artifact(dir@, target@, part@),
{
    let full = join_path(target, part);
    relative_path(dir, full.as_str())
}

/// The passphrase artifact, when execution will generate one.
pub open spec fn optional_artifact(dir: Seq<char>, target: Seq<char>, part: Seq<char>, present: bool) -> Seq<
    Seq<char>,
> {
    if present {
        seq![artifact(dir, target, part)]
    } else {
        Seq::empty()
    }
}

/// The files a root CA execution publishes, relative to `dir`, in creation order; the
/// generated passphrase file is listed when one will be generated.
pub fn root_artifact_plan(dir: &str, target: &str, includes_passphrase: bool) -> (r: Vec<String>)
    ensures
        r.deep_view() == seq![
            artifact(dir@, target@, "private/ca.key.pem"@),
            artifact(dir@, target@, "certs/ca.cert.pem"@),
            artifact(dir@, target@, "config/ca.ext"@),
            artifact(dir@, target@, "index.txt"@),
            artifact(dir@, target@, "serial"@),
        ] + optional_artifact(dir@, target@, "private/ca.passphrase"@, includes_passphrase),
{
    let mut r = vec![
        artifact_of(dir, target, "private/ca.key.pem"),
        artifact_of(dir, target, "certs/ca.cert.pem"),
        artifact_of(dir, target, "config/ca.ext"),
        artifact_of(dir, target, "index.txt"),
        artifact_of(dir, target, "serial"),
    ];
    let ghost first = r.deep_view();
    if includes_passphrase {
        r.push(artifact_of(dir, target, "private/ca.passphrase"));
    }
    assert(r.deep_view() =~= seq![
        artifact(dir@, target@, "private/ca.key.pem"@),
        artifact(dir@, target@, "certs/ca.cert.pem"@),
        artifact(dir@, target@, "config/ca.ext"@),
        artifact(dir@, target@, "index.txt"@),
        artifact(dir@, target@, "serial"@),
    ] + optional_artifact(dir@, target@, "private/ca.passphrase"@, includes_passphrase));
    r
}

/// The files a leaf certificate execution publishes, relative to `dir`, in creation order;
/// the generated passphrase file is listed when one will be generated.
pub fn certificate_artifact_plan(dir: &str, target: &str, includes_passphrase: bool) -> (r: Vec<
    String,
>)
    ensures
        r.deep_view() == seq![
            artifact(dir@, target@, "private/key.pem"@),
            artifact(dir@, target@, "csr/request.csr.pem"@),
            artifact(dir@, target@, "certs/cert.pem"@),
            artifact(dir@, target@, "config/leaf-ext.cnf"@),
            artifact(dir@, target@, "chain/issuer-chain.pem"@),
            artifact(dir@, target@, "chain/fullchain.pem"@),
        ] + optional_artifact(dir@, target@, "private/passphrase"@, includes_passphrase),
{
    let mut r = vec![
        artifact_of(dir, target, "private/key.pem"),
        artifact_of(dir, target, "csr/request.csr.pem"),
        artifact_of(dir, target, "certs/cert.pem"),
        artifact_of(dir, target, "config/leaf-ext.cnf"),
        artifact_of(dir, target, "chain/issuer-chain.pem"),
        artifact_of(dir, target, "chain/fullchain.pem"),
    ];
    if includes_passphrase {
        r.push(artifact_of(dir, target, "private/passphrase"));
    }
    assert(r.deep_view() =~= seq![
        artifact(dir@, target@, "private/key.pem"@),
        artifact(dir@, target@, "csr/request.csr.pem"@),
        artifact(dir@, target@, "certs/cert.pem"@),
        artifact(dir@, target@, "config/leaf-ext.cnf"@),
        artifact(dir@, target@, "chain/issuer-chain.pem"@),
        artifact(dir@, target@, "chain/fullchain.pem"@),
    ] + optional_artifact(dir@, target@, "private/passphrase"@, includes_passphrase));
    r
}

/// The files an intermediate CA execution publishes, relative to `dir`, in creation order;
/// the extension file lives outside the CA directory, and the generated passphrase file is
/// listed when one will be generated.
pub fn intermediate_artifact_plan(
    dir: &str,
    target: &str,
    extension: &str,
    includes_passphrase: bool,
) -> (r: Vec<String>)
    ensures
        r.deep_view() == seq![
            artifact(dir@, target@, "private/ca.key.pem"@),
            artifact(dir@, target@, "csr/ca.csr.pem"@),
            artifact(dir@, target@, "certs/ca.cert.pem"@),
            path_below(dir@, extension@),
            artifact(dir@, target@, "index.txt"@),
            artifact(dir@, target@, "serial"@),
            artifact(dir@, target@, "chain/issuer-chain.pem"@),
            artifact(dir@, target@, "chain/fullchain.pem"@),
        ] + optional_artifact(dir@, target@, "private/ca.passphrase"@, includes_passphrase),
{
    let mut r = vec![
        artifact_of(dir, target, "private/ca.key.pem"),
        artifact_of(dir, target, "csr/ca.csr.pem"),
        artifact_of(dir, target, "certs/ca.cert.pem"),
        relative_path(dir, extension),
        artifact_of(dir, target, "index.txt"),
        artifact_of(dir, target, "serial"),
        artifact_of(dir, target, "chain/issuer-chain.pem"),
        artifact_of(dir, target, "chain/fullchain.pem"),
    ];
    if includes_passphrase {
        r.push(artifact_of(dir, target, "private/ca.passphrase"));
    }
    assert(r.deep_view() =~= seq![
        artifact(dir@, target@, "private/ca.key.pem"@),
        artifact(dir@, target@, "csr/ca.csr.pem"@),
        artifact(dir@, target@, "certs/ca.cert.pem"@),
        path_below(dir@, extension@),
        artifact(dir@, target@, "index.txt"@),
        artifact(dir@, target@, "serial"@),
        artifact(dir@, target@, "chain/issuer-chain.pem"@),
        artifact(dir@, target@, "chain/fullchain.pem"@),
    ] + optional_artifact(dir@, target@, "private/ca.passphrase"@, includes_passphrase));
    r
}

/// The extension file of a root CA: CA basic constraints with the optional path length,
/// key usage, and key identifiers.
pub open spec fn root_extension_text(pathlen: Option<u32>, usages: Seq<KeyUsage>) -> Seq<char> {
    "basicConstraints=critical,CA:TRUE"@ + pathlen_suffix(pathlen) + "\nkeyUsage=critical,"@
        + usage_text(usages, true)
        + "\nsubjectKeyIdentifier=hash\nauthorityKeyIdentifier=keyid:always,issuer\n"@
}

/// The extension file text of a root CA.
pub fn root_extension(pathlen: Option<u32>, usages: &[KeyUsage]) -> (r: String)
    ensures
        r@ == root_extension_text(pathlen, usages@),
{
    let mut r = owned("basicConstraints=critical,CA:TRUE");
    let suffix = pathlen_text(pathlen);
    r.append(suffix.as_str());
    r.append("\nkeyUsage=critical,");
    let u = key_usages(usages, true);
    r.append(u.as_str());
    r.append("\nsubjectKeyIdentifier=hash\nauthorityKeyIdentifier=keyid:always,issuer\n");
    r
}

/// The extension file of an intermediate CA: CA basic constraints with its path length,
/// key usage, and key identifiers.
pub open spec fn intermediate_extension_text(pathlen: u32, usages: Seq<KeyUsage>) -> Seq<char> {
    "basicConstraints=critical,CA:TRUE,pathlen:"@ + decimal(pathlen as nat) + "\nkeyUsage=critical,"@
        + usage_text(usages, true)
        + "\nsubjectKeyIdentifier=hash\nauthorityKeyIdentifier=keyid,issuer\n"@
}

/// The extension file text of an intermediate CA.
pub fn intermediate_extension(pathlen: u32, usages: &[KeyUsage]) -> (r: String)
    ensures
        r@ == intermediate_extension_text(pathlen, usages@),
{
    let mut r = owned("basicConstraints=critical,CA:TRUE,pathlen:");
    let d = decimal_string(pathlen as u64);
    r.append(d.as_str());
    r.append("\nkeyUsage=critical,");
    let u = key_usages(usages, true);
    r.append(u.as_str());
    r.append("\nsubjectKeyIdentifier=hash\nauthorityKeyIdentifier=keyid,issuer\n");
    r
}

/// One subject alternative name entry: `IP:` for an IP address, else `DNS:`.
pub open spec fn san_entry(value: Seq<char>, is_ip: bool) -> Seq<char> {
    if is_ip {
        "IP:"@ + value
    } else {
        "DNS:"@ + value
    }
}

/// The extension file of a leaf certificate: not a CA, key usage, server authentication,
/// and the subject alternative names; `ip[i]` tells whether `sans[i]` is an IP address.
pub open spec fn leaf_extension_text(sans: Seq<Seq<char>>, ip: Seq<bool>, usages: Seq<KeyUsage>) -> Seq<
    char,
> {
    "basicConstraints=critical,CA:FALSE\nkeyUsage=critical,"@ + usage_text(usages, false)
        + "\nextendedKeyUsage=serverAuth\nsubjectAltName="@ + joined(
        Seq::new(sans.len(), |i: int| san_entry(sans[i], ip[i])),
        ","@,
    ) + "\n"@
}

/// The extension file text of a leaf certificate.
pub fn leaf_extension(sans: &Vec<String>, ip: &Vec<bool>, usages: &[KeyUsage]) -> (r: String)
    requires
        ip@.len() == sans@.len(),
    ensures
        r@ == leaf_extension_text(sans.deep_view(), ip@, usages@),
{
    let ghost sv = sans.deep_view();
    let mut entries: Vec<String> = Vec::new();
    let mut i: usize = 0;
    while i < sans.len()
        invariant
            sv == sans.deep_view(),
            ip@.len() == sans@.len(),
            i <= sans@.len(),
            entries.deep_view() == Seq::new(i as nat, |k: int| san_entry(sv[k], ip@[k])),
        decreases sans.len() - i,
    {
        let mut entry = if ip[i] {
            owned("IP:")
        } else {
            owned("DNS:")
        };
        entry.append(sans[i].as_str());
        let ghost before = entries.deep_view();
        entries.push(entry);
        assert(entries.deep_view() =~= before.push(san_entry(sv[i as int], ip@[i as int])));
        i = i + 1;
        assert(entries.deep_view() =~= Seq::new(i as nat, |k: int| san_entry(sv[k], ip@[k])));
    }
    let values = join(&entries, ",");
    let mut r = owned("basicConstraints=critical,CA:FALSE\nkeyUsage=critical,");
    let u = key_usages(usages, false);
    r.append(u.as_str());
    r.append("\nextendedKeyUsage=serverAuth\nsubjectAltName=");
    r.append(values.as_str());
    r.append("\n");
    r
}

} // verus!
