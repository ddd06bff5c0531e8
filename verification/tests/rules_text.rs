use gywadmin_pki::create::{normalize_sans, CertArgs};
use gywadmin_pki::dispatch::{action_failure, capability_args, fs_error, launch_failure, run_to_file, OpenSsl, RunError};
use gywadmin_pki::display::{
    artifact_provenance, command_creates, is_sensitive_path, multiline_command, planned_command_for_artifact,
    planned_content, shell_quote, verbose_commands,
};
use gywadmin_pki::layout::{
    ca_directory, ensure_unique_ca_name, intermediate_extension_path, issuer_candidates, join_path,
    leaf_directory, parent_default_passphrase, relative_path, resolve_issuer,
};
use gywadmin_pki::model::{normalized_days, CertificateDuration, DurationUnit, KeyUsage, Profile};
use gywadmin_pki::plans::{
    certificate_artifact_plan, generate_key, intermediate_artifact_plan, leaf_extension, root_artifact_plan,
    root_command_plan, root_extension, RootArgs,
};
use gywadmin_pki::redact::{redacted_arguments, redacted_runs};
use gywadmin_pki::report::{success, success_with_path};
use gywadmin_pki::rules::{check_sans, key_usages, validate_key_usages, validate_name};
use gywadmin_pki::secret::{check_passphrase_file, confirm_prompted, hex_encode, passphrase, passphrase_from_contents, random_passphrase};
use gywadmin_pki::subject::{inherited_subject, validate_subject, SubjectArgs};

fn strings(values: &[&str]) -> Vec<String> {
    values.iter().map(|v| v.to_string()).collect()
}

fn subject(cn: &str, o: Option<&str>, c: Option<&str>) -> SubjectArgs {
    SubjectArgs {
        common_name: cn.to_string(),
        organization: o.map(str::to_string),
        organizational_unit: None,
        country: c.map(str::to_string),
        state: None,
        locality: None,
    }
}

fn duration(amount: u32, unit: DurationUnit) -> CertificateDuration {
    CertificateDuration { amount, unit }
}

#[test]
fn durations_parse_with_and_without_units() {
    assert_eq!(CertificateDuration::parse("5y").unwrap(), duration(5, DurationUnit::Years));
    assert_eq!(CertificateDuration::parse("12").unwrap(), duration(12, DurationUnit::Days));
    assert_eq!(CertificateDuration::parse("+3w").unwrap(), duration(3, DurationUnit::Weeks));
    assert_eq!(CertificateDuration::parse("").unwrap_err(), "duration cannot be empty");
    assert_eq!(CertificateDuration::parse("0d").unwrap_err(), "duration must be greater than zero");
    assert_eq!(CertificateDuration::parse("5x").unwrap_err(), "invalid duration unit 'x'; use d, w, m, or y");
    assert_eq!(CertificateDuration::parse("y").unwrap_err(), "invalid duration amount: ");
    assert_eq!(CertificateDuration::parse("4294967296d").unwrap_err(), "invalid duration amount: 4294967296");
}

#[test]
fn durations_convert_to_days() {
    assert_eq!(duration(5, DurationUnit::Days).to_days(), Ok(5));
    assert_eq!(duration(5, DurationUnit::Weeks).to_days(), Ok(35));
    assert_eq!(duration(5, DurationUnit::Months).to_days(), Ok(150));
    assert_eq!(duration(5, DurationUnit::Years).to_days(), Ok(1825));
    assert_eq!(duration(u32::MAX, DurationUnit::Weeks).to_days(), Err("duration is too large".to_string()));
}

#[test]
fn lifetimes_are_checked_after_conversion() {
    assert_eq!(normalized_days(&duration(2, DurationUnit::Years), 1, 3650), Ok(730));
    assert_eq!(
        normalized_days(&duration(21, DurationUnit::Years), 1, 7300),
        Err((4, "days must be in 1..=7300; received 7665".to_string()))
    );
    assert_eq!(
        normalized_days(&duration(u32::MAX, DurationUnit::Years), 1, 397),
        Err((4, "duration is too large".to_string()))
    );
}

#[test]
fn names_are_safe_directory_names() {
    assert!(validate_name("issuing-ca_2").is_ok());
    let message = (4, "name must contain only ASCII letters, digits, '-' or '_'".to_string());
    assert_eq!(validate_name(""), Err(message.clone()));
    assert_eq!(validate_name(".."), Err(message.clone()));
    assert_eq!(validate_name("a/b"), Err(message.clone()));
    assert_eq!(validate_name("é"), Err(message));
}

#[test]
fn key_usages_have_defaults_and_rules() {
    assert_eq!(key_usages(&[], true), "keyCertSign,cRLSign");
    assert_eq!(key_usages(&[], false), "digitalSignature,keyEncipherment");
    assert_eq!(key_usages(&[KeyUsage::KeyCertSign, KeyUsage::DigitalSignature], true), "keyCertSign,digitalSignature");
    assert_eq!(KeyUsage::CrlSign.text(), "cRLSign");
    assert_eq!(KeyUsage::KeyAgreement.text(), "keyAgreement");
    assert!(validate_key_usages(&[], true).is_ok());
    assert_eq!(
        validate_key_usages(&[KeyUsage::DigitalSignature], true),
        Err((4, "CA key usage must include key-cert-sign".to_string()))
    );
    assert_eq!(
        validate_key_usages(&[KeyUsage::CrlSign], false),
        Err((4, "leaf key usage cannot include key-cert-sign or crl-sign".to_string()))
    );
    assert!(validate_key_usages(&[KeyUsage::KeyAgreement], false).is_ok());
}

#[test]
fn profiles_are_listed_and_named() {
    let names: Vec<&str> = Profile::all().iter().map(|p| p.text()).collect();
    assert_eq!(names, vec!["ecdsa-p256", "ed25519", "rsa-4096"]);
}

#[test]
fn subjects_are_checked_written_and_inherited() {
    let full = SubjectArgs {
        common_name: "Parent Root".to_string(),
        organization: Some("Example".to_string()),
        organizational_unit: Some("Parent CA".to_string()),
        country: Some("US".to_string()),
        state: Some("NY".to_string()),
        locality: Some("Albany".to_string()),
    };
    assert_eq!(full.distinguished_name(), "/CN=Parent Root/O=Example/OU=Parent CA/C=US/ST=NY/L=Albany");
    assert_eq!(subject("Leaf", None, None).distinguished_name(), "/CN=Leaf/O=");
    assert!(validate_subject(&full).is_ok());
    assert_eq!(
        validate_subject(&subject(" ", Some("Example"), None)),
        Err((4, "common name and organization are required".to_string()))
    );
    assert_eq!(
        validate_subject(&subject("X", Some("Example"), Some("USA"))),
        Err((4, "country must be two letters".to_string()))
    );
    assert_eq!(
        validate_subject(&subject("X", Some("Example"), Some("12"))),
        Err((4, "country must be two letters".to_string()))
    );
    assert_eq!(
        validate_subject(&subject("X", Some("Example"), Some("é"))),
        Err((4, "country must be two letters".to_string()))
    );
    assert!(validate_subject(&subject("X", Some("Example"), Some("de"))).is_ok());
    let child = subject("Issuing CA", None, Some("DE"));
    let merged = inherited_subject(&full, &child);
    assert_eq!(merged.common_name, "Issuing CA");
    assert_eq!(merged.organization.as_deref(), Some("Example"));
    assert_eq!(merged.country.as_deref(), Some("DE"));
    assert_eq!(merged.locality.as_deref(), Some("Albany"));
}

fn cert_args(san: &[&str], dns: &[&str], ip: &[&str]) -> CertArgs {
    CertArgs {
        subject: subject("Leaf", None, None),
        profile: None,
        name: "leaf".to_string(),
        issuer: "root".to_string(),
        days: duration(30, DurationUnit::Days),
        san: strings(san),
        key_usage: Vec::new(),
        dns: strings(dns),
        ip: strings(ip),
        passphrase: None,
        passphrase_file: None,
        issuer_passphrase_file: None,
        do_it: false,
    }
}

#[test]
fn sans_are_sorted_without_repeats() {
    let sans = normalize_sans(&cert_args(&["b.example", "a.example"], &["b.example"], &["192.0.2.1"])).unwrap();
    assert_eq!(sans, strings(&["192.0.2.1", "a.example", "b.example"]));
    assert_eq!(
        normalize_sans(&cert_args(&[], &[], &[])),
        Err((4, "at least one --san is required".to_string()))
    );
}

#[test]
fn refused_sans_are_named() {
    assert!(check_sans(&strings(&["a.example", "::1"]), &vec![false, true]).is_ok());
    assert_eq!(
        check_sans(&strings(&["a.example", "me@example.com", "x/y"]), &vec![false, false, false]),
        Err((4, "invalid SAN: me@example.com".to_string()))
    );
    assert_eq!(check_sans(&strings(&[""]), &vec![false]), Err((4, "invalid SAN: ".to_string())));
    assert_eq!(check_sans(&strings(&["bad!"]), &vec![false]), Err((4, "invalid SAN: bad!".to_string())));
    assert_eq!(check_sans(&strings(&["a..example"]), &vec![false]), Err((4, "invalid SAN: a..example".to_string())));
    assert_eq!(check_sans(&strings(&["-a.example"]), &vec![false]), Err((4, "invalid SAN: -a.example".to_string())));
    assert_eq!(check_sans(&strings(&["a.*.example"]), &vec![false]), Err((4, "invalid SAN: a.*.example".to_string())));
    assert!(check_sans(&strings(&["*.example.com", "a-1.example", "localhost"]), &vec![false, false, false]).is_ok());
}

#[test]
fn extensions_are_written_exactly() {
    assert_eq!(
        root_extension(Some(1), &[]),
        "basicConstraints=critical,CA:TRUE,pathlen:1\nkeyUsage=critical,keyCertSign,cRLSign\nsubjectKeyIdentifier=hash\nauthorityKeyIdentifier=keyid:always,issuer\n"
    );
    assert_eq!(
        leaf_extension(&strings(&["192.0.2.1", "www.example.com"]), &vec![true, false], &[]),
        "basicConstraints=critical,CA:FALSE\nkeyUsage=critical,digitalSignature,keyEncipherment\nextendedKeyUsage=serverAuth\nsubjectAltName=IP:192.0.2.1,DNS:www.example.com\n"
    );
}

#[test]
fn keys_are_generated_per_profile() {
    assert_eq!(
        generate_key(Profile::EcdsaP256, "/pki/x/private/ca.key.pem", Some("/pki/x/private/ca.passphrase")),
        strings(&["ecparam", "-name", "prime256v1", "-genkey", "-noout", "-out", "/pki/x/private/ca.key.pem"])
    );
    assert_eq!(
        generate_key(Profile::Ed25519, "k.pem", Some("p")),
        strings(&["genpkey", "-algorithm", "ED25519", "-out", "k.pem"])
    );
    assert_eq!(
        generate_key(Profile::Rsa4096, "/pki/x/private/ca.key.pem", Some("/pki/x/private/ca.passphrase")),
        strings(&["genrsa", "-aes256", "-passout", "file:/pki/x/private/ca.passphrase", "-out", "/pki/x/private/ca.key.pem", "4096"])
    );
    assert_eq!(
        generate_key(Profile::Rsa4096, "/pki/x/private/ca.key.pem", None),
        strings(&["genrsa", "-out", "/pki/x/private/ca.key.pem", "4096"])
    );
}

fn rsa_root() -> RootArgs {
    RootArgs {
        subject: subject("Root", Some("Example"), None),
        name: "main".to_string(),
        profile: Profile::Rsa4096,
        days: duration(5, DurationUnit::Years),
        pathlen: Some(2),
        key_usage: Vec::new(),
        passphrase: None,
        passphrase_file: None,
        do_it: false,
    }
}

#[test]
fn root_commands_are_planned_with_placeholders() {
    let plan = root_command_plan(&rsa_root(), "/pki/rsa-4096/root/main/ca/private/ca.key.pem", "/pki/rsa-4096/root/main/ca/certs/ca.cert.pem", 1825);
    assert_eq!(
        plan,
        vec![
            strings(&["openssl", "genrsa", "-aes256", "-passout", "file:<generated-or-supplied-passphrase>", "-out", "/pki/rsa-4096/root/main/ca/private/ca.key.pem", "4096"]),
            strings(&[
                "openssl", "req", "-x509", "-new", "-key", "/pki/rsa-4096/root/main/ca/private/ca.key.pem",
                "-passin", "file:<generated-or-supplied-passphrase>", "-sha256", "-days", "1825", "-subj",
                "/CN=Root/O=Example", "-addext", "basicConstraints=critical,CA:TRUE,pathlen:2", "-addext",
                "keyUsage=critical,keyCertSign,cRLSign", "-out", "/pki/rsa-4096/root/main/ca/certs/ca.cert.pem",
            ]),
        ]
    );
}

#[test]
fn artifacts_are_listed_relative_to_the_directory() {
    assert_eq!(
        root_artifact_plan("/pki", "/pki/ed25519/root/r/ca", true),
        strings(&[
            "ed25519/root/r/ca/private/ca.key.pem",
            "ed25519/root/r/ca/certs/ca.cert.pem",
            "ed25519/root/r/ca/config/ca.ext",
            "ed25519/root/r/ca/index.txt",
            "ed25519/root/r/ca/serial",
            "ed25519/root/r/ca/private/ca.passphrase",
        ])
    );
}

#[test]
fn paths_are_joined_and_made_relative() {
    assert_eq!(join_path("/pki", "a/b"), "/pki/a/b");
    assert_eq!(join_path("/pki/", "a"), "/pki/a");
    assert_eq!(join_path("/pki", "/abs"), "/abs");
    assert_eq!(relative_path("/pki", "/pki/a/b"), "a/b");
    assert_eq!(relative_path("/pki", "/pki"), "");
    assert_eq!(relative_path("/pki", "/other/a"), "/other/a");
    assert_eq!(relative_path("/pki", "/pkix/a"), "/pkix/a");
    assert_eq!(relative_path("/pki", &join_path("/pki", "ed25519/certs/x")), "ed25519/certs/x");
}

#[test]
fn ca_paths_follow_the_layout() {
    assert_eq!(ca_directory("/pki", Profile::Ed25519, "intermediate", "issuing"), "/pki/ed25519/intermediate/issuing/ca");
    assert_eq!(leaf_directory("/pki", Profile::EcdsaP256, "web"), "/pki/ecdsa-p256/certs/web");
    assert_eq!(intermediate_extension_path("/pki", "issuing"), "/pki/.pki-intermediate-ext/issuing");
    assert_eq!(parent_default_passphrase("/pki/ed25519/root/ca/certs/ca.cert.pem"), "/pki/ed25519/root/ca/private/ca.passphrase");
    assert_eq!(parent_default_passphrase("ca.cert.pem"), "private/ca.passphrase");
}

#[test]
fn ca_names_in_use_are_refused() {
    assert!(ensure_unique_ca_name("free", &[false, false, false, false, false, false]).is_ok());
    assert_eq!(
        ensure_unique_ca_name("taken", &[false, false, true, false, false, false]),
        Err((5, "CA name is already in use: taken".to_string()))
    );
}

#[test]
fn issuer_selectors_resolve_to_one_certificate() {
    let candidates = issuer_candidates("/pki", "root:main");
    assert_eq!(candidates[1].as_deref(), Some("/pki/ed25519/root/main/ca/certs/ca.cert.pem"));
    let found = resolve_issuer("/pki", "root:main", &[false, true, false]).unwrap();
    assert_eq!(found.path, "/pki/ed25519/root/main/ca/certs/ca.cert.pem");
    assert_eq!(found.profile, Profile::Ed25519);
    assert_eq!(
        resolve_issuer("/pki", "root", &[true, true, false]).unwrap_err(),
        (4, "issuer selector is ambiguous: root (/pki/ecdsa-p256/root/ca/certs/ca.cert.pem, /pki/ed25519/root/ca/certs/ca.cert.pem)".to_string())
    );
    assert_eq!(
        resolve_issuer("/pki", "leaf", &[false, false, false]).unwrap_err(),
        (4, "issuer must be root, root:<name>, or intermediate:<name>".to_string())
    );
    assert_eq!(
        resolve_issuer("/pki", "intermediate:x", &[false, false, false]).unwrap_err(),
        (4, "issuer certificate does not exist for selector: intermediate:x".to_string())
    );
}

#[test]
fn passphrase_files_hold_one_line() {
    assert_eq!(passphrase_from_contents("secret\r\n").unwrap(), "secret");
    let refused = (4, "passphrase file must contain one nonempty line".to_string());
    assert_eq!(passphrase_from_contents("\n\n"), Err(refused.clone()));
    assert_eq!(passphrase_from_contents("a\nb\n"), Err(refused));
    assert_eq!(passphrase(Some("given\n")).unwrap(), "given");
}

#[test]
fn generated_passphrases_are_64_lowercase_hex_characters() {
    let first = random_passphrase().unwrap();
    let second = passphrase(None).unwrap();
    for value in [&first, &second] {
        assert_eq!(value.len(), 64);
        assert!(value.chars().all(|c| c.is_ascii_digit() || ('a'..='f').contains(&c)));
    }
    assert_ne!(first, second);
    assert_eq!(hex_encode(&[0, 15, 16, 255]), "000f10ff");
}

#[test]
fn words_are_quoted_only_when_needed() {
    assert_eq!(shell_quote("file:/pki/a_b-c.pem"), "file:/pki/a_b-c.pem");
    assert_eq!(shell_quote("/CN=Example Root"), "\"/CN=Example Root\"");
    assert_eq!(shell_quote("say \"hi\""), "\"say \\\"hi\\\"\"");
    assert_eq!(shell_quote(""), "");
}

#[test]
fn commands_are_shown_one_option_per_line() {
    let lines = multiline_command(&strings(&["openssl", "genpkey", "-algorithm", "ED25519", "-out", "k.pem", "-x509", "--flag", "-v", "-w"]), "  ");
    assert_eq!(
        lines,
        strings(&[
            "  $ openssl genpkey \\",
            "      -algorithm ED25519 \\",
            "      -out k.pem \\",
            "      -x509 \\",
            "      --flag \\",
            "      -v \\",
            "      -w",
        ])
    );
    assert_eq!(multiline_command(&strings(&["openssl"]), ""), strings(&["$ openssl"]));
    assert!(multiline_command(&[], "").is_empty());
}

#[test]
fn artifacts_have_a_provenance() {
    assert_eq!(artifact_provenance("x/private/ca.key.pem").0, "OpenSSL");
    assert_eq!(artifact_provenance("x/csr/ca.csr.pem").1, "certificate signing request submitted for signing");
    assert_eq!(artifact_provenance("x/chain/fullchain.pem").2, "copy and concatenate certificate bytes in chain order");
    assert_eq!(artifact_provenance("x/index.txt").2, "create an empty 0-byte text file");
    assert_eq!(
        artifact_provenance("x/other"),
        ("pki application", "created operation artifact", "write the planned artifact")
    );
    assert_eq!(planned_content("x/serial"), strings(&["  contents: 1000 followed by a newline"]));
    assert_eq!(planned_content("x/config/ca.ext").len(), 2);
    assert_eq!(planned_content("x/private/ca.passphrase"), strings(&["  contents: hidden; sensitive file"]));
}

#[test]
fn the_first_command_naming_an_artifact_is_found() {
    let commands = vec![
        strings(&["openssl", "genpkey", "-out", "/pki/a/private/ca.key.pem"]),
        strings(&["openssl", "req", "-key", "/pki/a/private/ca.key.pem", "-out", "/pki/a/certs/ca.cert.pem"]),
    ];
    assert_eq!(planned_command_for_artifact("a/private/ca.key.pem", &commands), Some(&commands[0]));
    assert_eq!(planned_command_for_artifact("a/certs/ca.cert.pem", &commands), Some(&commands[1]));
    assert_eq!(planned_command_for_artifact("a/serial", &commands), None);
}

#[test]
fn sensitive_paths_and_creating_commands_are_recognised() {
    assert!(is_sensitive_path("/pki/x/private/anything"));
    assert!(is_sensitive_path("leaf/key.pem") == false);
    assert!(is_sensitive_path("x/ca.key.pem"));
    assert!(is_sensitive_path("x/ca.passphrase"));
    assert!(!is_sensitive_path("x/certs/cert.pem"));
    let mut openssl = OpenSsl { binary: "openssl".to_string(), commands: Vec::new() };
    let outcome = openssl.run(&strings(&["req", "-out", "/pki/c.pem"]), false, Some(1), String::new(), "  bad input \n".to_string(), 0, 13);
    assert_eq!(outcome, Err("OpenSSL failed: bad input".to_string()));
    assert!(command_creates(&openssl.commands[0], "/pki/c.pem"));
    assert!(!command_creates(&openssl.commands[0], "/pki/c"));
    assert_eq!(openssl.commands[0].argv, strings(&["openssl", "req", "-out", "/pki/c.pem"]));
    let lines = verbose_commands(&openssl.commands);
    assert_eq!(
        lines,
        strings(&[
            "$ openssl req \\",
            "    -out /pki/c.pem",
            "status: false (exit code: Some(1))",
            "stdout: 0 bytes",
            "stderr: 13 bytes",
        ])
    );
}

#[test]
fn negative_and_missing_exit_codes_are_shown() {
    let mut openssl = OpenSsl { binary: "openssl".to_string(), commands: Vec::new() };
    let _ = openssl.run(&Vec::new(), true, Some(-2), "out".to_string(), String::new(), 3, 0);
    let _ = openssl.run(&Vec::new(), false, None, String::new(), String::new(), 0, 0);
    let lines = verbose_commands(&openssl.commands);
    assert_eq!(lines[1], "status: true (exit code: Some(-2))");
    assert_eq!(lines[2], "stdout: 3 bytes");
    let mut other = OpenSsl { binary: "openssl".to_string(), commands: Vec::new() };
    let _ = other.run(&Vec::new(), true, Some(-2), "different".to_string(), "noise".to_string(), 3, 0);
    assert_eq!(verbose_commands(&other.commands), verbose_commands(&openssl.commands[..1]));
    assert!(!lines.join("\n").contains("out\n"));
    assert_eq!(lines[5], "status: false (exit code: None)");
}

#[test]
fn failures_carry_their_codes() {
    assert_eq!(fs_error("denied".to_string()), (6, "denied".to_string()));
    assert_eq!(
        run_to_file(Err(RunError::Failed("OpenSSL failed: x".to_string()))),
        Err((10, "OpenSSL failed: x".to_string()))
    );
    assert_eq!(
        run_to_file(Err(RunError::Launch("cannot launch OpenSSL: not found".to_string()))),
        Err((8, "cannot launch OpenSSL: not found".to_string()))
    );
    assert_eq!(run_to_file(Ok(())), Ok(()));
    assert_eq!(launch_failure("not found"), "cannot launch OpenSSL: not found");
    assert_eq!(
        action_failure("cannot generate leaf key k: ", RunError::Launch("cannot launch OpenSSL: gone".to_string())),
        (8, "cannot generate leaf key k: cannot launch OpenSSL: gone".to_string())
    );
    assert_eq!(
        action_failure("", RunError::Failed("OpenSSL failed: bad".to_string())),
        (10, "OpenSSL failed: bad".to_string())
    );
    assert_eq!(capability_args(), strings(&["genpkey", "-algorithm", "ED25519"]));
}

#[test]
fn reports_start_successful() {
    let report = success("done", false);
    assert!(report.ok && report.error.is_none() && !report.dry_run);
    assert_eq!(report.schema_version, 1);
    let report = success_with_path("dry", true, "a/b".to_string());
    assert_eq!(report.paths, strings(&["a/b"]));
    assert!(report.dry_run);
}

#[test]
fn written_lifetimes_read_back() {
    for (unit, letter) in [(DurationUnit::Days, "d"), (DurationUnit::Weeks, "w"), (DurationUnit::Months, "m"), (DurationUnit::Years, "y")] {
        for amount in [1u32, 9, 10, 365, u32::MAX] {
            assert_eq!(CertificateDuration::parse(&format!("{amount}{letter}")).unwrap(), duration(amount, unit));
            assert_eq!(CertificateDuration::parse(&format!("{amount}")).unwrap(), duration(amount, DurationUnit::Days));
        }
    }
}

#[test]
fn failed_operations_are_reported() {
    let report = gywadmin_pki::report::failure_report((5, "target already exists: /x".to_string()), Vec::new());
    assert!(!report.ok);
    assert_eq!(report.code, 5);
    assert_eq!(report.error.as_deref(), Some("target already exists: /x"));
    assert_eq!(report.message, "operation failed");
    assert!(report.dry_run);
}

#[test]
fn human_reports_end_with_the_summary_and_paths() {
    let report = success_with_path("dry-run: root CA would be created for 5 days", true, "ed25519/root/r/ca".to_string());
    let lines = gywadmin_pki::display::human_report(&report, false);
    assert_eq!(lines, strings(&["ok: dry-run: root CA would be created for 5 days", "ed25519/root/r/ca"]));
    let mut listed = gywadmin_pki::report::list_certificates(Vec::new());
    let mut openssl = OpenSsl { binary: "openssl".to_string(), commands: Vec::new() };
    let _ = openssl.run(&strings(&["x509", "-help"]), true, Some(0), String::new(), String::new(), 0, 0);
    listed.commands = openssl.commands;
    let lines = gywadmin_pki::display::human_report(&listed, true);
    assert_eq!(lines[0], "$ openssl x509 \\");
    assert_eq!(lines[lines.len() - 2], "ok: listed 0 certificate(s)");
    assert_eq!(lines[lines.len() - 1], "");
}

#[test]
fn reports_redact_secrets_and_raw_output() {
    let args = strings(&[
        "openssl",
        "req",
        "-new",
        "-key",
        "/pki/ed25519/root/main/ca/private/ca.key.pem",
        "-passin",
        "file:/pki/ed25519/root/main/ca/private/ca.passphrase",
        "-pass",
        "stdin",
        "-out",
        "/pki/ed25519/root/main/ca/csr/ca.csr.pem",
        "/elsewhere/x.pem",
    ]);
    assert_eq!(
        redacted_arguments("/pki", &args),
        strings(&[
            "openssl",
            "req",
            "-new",
            "-key",
            "<redacted>",
            "-passin",
            "<redacted>",
            "-pass",
            "<redacted>",
            "-out",
            "ed25519/root/main/ca/csr/ca.csr.pem",
            "/elsewhere/x.pem",
        ])
    );
    let mut openssl = OpenSsl { binary: "openssl".to_string(), commands: Vec::new() };
    let _ = openssl.run(&strings(&["genpkey", "-algorithm", "ED25519"]), true, Some(0), "PRIVATE KEY".to_string(), "warn".to_string(), 11, 4);
    let shown = redacted_runs("/pki", &openssl.commands);
    assert_eq!(shown.len(), 1);
    assert_eq!(shown[0].argv, strings(&["openssl", "genpkey", "-algorithm", "ED25519"]));
    assert_eq!((shown[0].stdout.as_str(), shown[0].stderr.as_str()), ("", ""));
    assert_eq!((shown[0].stdout_bytes, shown[0].stderr_bytes, shown[0].code, shown[0].success), (11, 4, Some(0), true));
}

#[test]
fn passphrase_files_must_be_private_and_inside_the_directory() {
    assert_eq!(check_passphrase_file("/pki", "root.pass", true, 0o600, true), Ok(()));
    assert_eq!(check_passphrase_file("/pki", "root.pass", true, 0o200, true), Ok(()));
    assert_eq!(check_passphrase_file("/pki", "/pki/ed25519/root/ca/private/ca.passphrase", true, 0o400, true), Ok(()));
    assert_eq!(check_passphrase_file("../pki", "../pki/ed25519/root/ca/private/ca.passphrase", true, 0o600, true), Ok(()));
    assert_eq!(
        check_passphrase_file("/pki", "root.pass", false, 0o600, true),
        Err((4, "passphrase file must be a regular file".to_string()))
    );
    for outside in ["/etc/root.pass", "../root.pass", "a/../../root.pass", "/pki/../root.pass"] {
        assert_eq!(
            check_passphrase_file("/pki", outside, true, 0o600, true),
            Err((4, "passphrase file must be inside --dir".to_string())),
            "{outside}"
        );
    }
    assert_eq!(
        check_passphrase_file("/pki", "root.pass", true, 0o600, false),
        Err((4, "passphrase file must be owned by the current user".to_string()))
    );
    for mode in [0o640, 0o604, 0o644, 0o660, 0o700, 0o610] {
        assert_eq!(
            check_passphrase_file("/pki", "root.pass", true, mode, true),
            Err((4, "passphrase file must have mode 0600 or stricter".to_string()))
        );
    }
}

#[test]
fn relative_paths_follow_path_components() {
    assert_eq!(relative_path("/pki", "/pki/a/b.pem"), "a/b.pem");
    assert_eq!(relative_path("/pki", "/pki/a/"), "a");
    assert_eq!(relative_path("/pki", "/pki//a"), "a");
    assert_eq!(relative_path("/pki/", "/pki/a"), "a");
    assert_eq!(relative_path("/pki", "/pki/./a/."), "a");
    assert_eq!(relative_path("/pki", "/pki/a//b"), "a//b");
    assert_eq!(relative_path("/pki", "/pki"), "");
    assert_eq!(relative_path("/pki", "/pkix/a"), "/pkix/a");
    assert_eq!(relative_path("./pki", "./pki/a"), "a");
    assert_eq!(relative_path("./pki", "pki/a"), "pki/a");
    assert_eq!(relative_path("pki", "/pki/a"), "/pki/a");
    assert_eq!(relative_path("", "a/b/"), "a/b");
    assert_eq!(relative_path("", "a/."), "a");
    assert_eq!(relative_path("", "/"), "/");
    assert_eq!(relative_path("", "./"), ".");
    assert_eq!(relative_path("", "/a//"), "/a");
    assert_eq!(relative_path("", ""), "");
}

#[test]
fn prompted_passphrases_must_match() {
    assert_eq!(confirm_prompted("s3cret\n", "s3cret\n"), Ok("s3cret".to_string()));
    assert_eq!(confirm_prompted("s3cret\n", "other\n"), Err((4, "the two passphrases differ".to_string())));
    assert_eq!(
        confirm_prompted("\n", "\n"),
        Err((4, "the passphrase must be one nonempty line".to_string()))
    );
}

#[test]
fn planned_artifacts_are_hidden_exactly_by_their_names() {
    let dir = "/srv/pki";
    let root = ca_directory(dir, Profile::Ed25519, "root", "main");
    let mid = ca_directory(dir, Profile::Ed25519, "intermediate", "issuing");
    let leaf = leaf_directory(dir, Profile::Ed25519, "web");
    let ext = intermediate_extension_path(dir, "issuing");
    let mut all = root_artifact_plan(dir, &root, true);
    all.extend(intermediate_artifact_plan(dir, &mid, &ext, true));
    all.extend(certificate_artifact_plan(dir, &leaf, true));
    assert_eq!(all.len(), 6 + 9 + 7);
    let mut hidden = 0;
    for relative in &all {
        let full = join_path(dir, relative);
        let by_name = relative.ends_with("key.pem") || relative.ends_with("passphrase");
        assert_eq!(is_sensitive_path(&full), by_name, "{relative}");
        if by_name {
            hidden += 1;
        }
    }
    assert_eq!(hidden, 6);
    assert!(all.contains(&"ed25519/root/main/ca/private/ca.key.pem".to_string()));
    assert!(all.contains(&".pki-intermediate-ext/issuing".to_string()));
    assert!(all.contains(&"ed25519/certs/web/certs/cert.pem".to_string()));
}
