use gywadmin_pki::certificate::check_issued_sans;
use gywadmin_pki::certificate::{
    classify_certificate_path, format_algorithm, format_timestamp, is_certificate_file,
    parse_certificate, read_subject,
};
use gywadmin_pki::dispatch::{inspection_args, OpenSsl};
use gywadmin_pki::display::verbose_commands;
use gywadmin_pki::report::list_certificates;
use gywadmin_pki::tree::{display_sort_key, render_tree, CertificateRecord};

// Certificates made once with OpenSSL for these tests.
const EXAMPLE_PEM: &str = "-----BEGIN CERTIFICATE-----\n\
MIIBRDCB96ADAgECAhQcPvoZkub/FxbrXbT+hHQDKnf6JDAFBgMrZXAwFzEVMBMG\n\
A1UEAwwMZXhhbXBsZS50ZXN0MCAXDTI2MTExODA3MDIyOFoYDzIxMjYxMDI1MDcw\n\
MjI4WjAXMRUwEwYDVQQDDAxleGFtcGxlLnRlc3QwKjAFBgMrZXADIQBkIuEpLy/w\n\
LqGGJoQU1N+PcmljfMmm2rraorKhTfCCcqNTMFEwHQYDVR0OBBYEFA2EySAdCnVA\n\
noJ1r4wy0iM1wwbEMB8GA1UdIwQYMBaAFA2EySAdCnVAnoJ1r4wy0iM1wwbEMA8G\n\
A1UdEwEB/wQFMAMBAf8wBQYDK2VwA0EAlehK5O6+YdmcJO0TdBqfgsnD/a8VeypP\n\
CoTcGR3UOjfgTU51RN3Rfr8+sDZ40MWvdpjluvQDcv16xJ7N/Ux0DQ==\n\
-----END CERTIFICATE-----\n";
const ROOT_PEM: &str = "-----BEGIN CERTIFICATE-----\n\
MIIBWTCCAQugAwIBAgIUGqQsorN55H44FDc/XBtYhBoL7SwwBQYDK2VwMCExDTAL\n\
BgNVBAMMBFJvb3QxEDAOBgNVBAoMB0V4YW1wbGUwIBcNMjYxMTE4MDcwMjI4WhgP\n\
MjEyNjEwMjUwNzAyMjhaMCExDTALBgNVBAMMBFJvb3QxEDAOBgNVBAoMB0V4YW1w\n\
bGUwKjAFBgMrZXADIQASQtCfV4NhqrbN4/TJOFIcZvDbMtZNmcBFuPW+1jIqJ6NT\n\
MFEwHQYDVR0OBBYEFMRcqwr8KSpmFvEBqihFK2IYoc8rMB8GA1UdIwQYMBaAFMRc\n\
qwr8KSpmFvEBqihFK2IYoc8rMA8GA1UdEwEB/wQFMAMBAf8wBQYDK2VwA0EAGBjz\n\
odUWdC2+sVmqHedUi4szAfl5lNO1xgI8jJUNKmFv8jCD9WBaUvtjlMNwy2mfUToR\n\
G1eKMyu2Y/y+K9QkCA==\n\
-----END CERTIFICATE-----\n";
const SERVICE_PEM: &str = "-----BEGIN CERTIFICATE-----\n\
MIIBSjCB/aADAgECAhQcPd3lUeN3JfaJB4rG1sm+FjuOBzAFBgMrZXAwGjEYMBYG\n\
A1UEAwwPc2VydmljZS5leGFtcGxlMCAXDTI2MTExODA3MDIyOFoYDzIxMjYxMDI1\n\
MDcwMjI4WjAaMRgwFgYDVQQDDA9zZXJ2aWNlLmV4YW1wbGUwKjAFBgMrZXADIQDF\n\
fCrU35b1tmFPDnnQ+GZPHnGURRNaFatAnSUJEdhHvaNTMFEwHQYDVR0OBBYEFNWW\n\
NUFzagdq28hIEF4yPn2DdAtRMB8GA1UdIwQYMBaAFNWWNUFzagdq28hIEF4yPn2D\n\
dAtRMA8GA1UdEwEB/wQFMAMBAf8wBQYDK2VwA0EAkw0AgGug+LhkimNXZcEtjJQp\n\
1jJJrPqMfd8J1TR6wW1vUpMs9utpkwsazHD936S1nEQhE3tLKK0xx8qmjXo9CA==\n\
-----END CERTIFICATE-----\n";
const SAN_PEM: &str = "-----BEGIN CERTIFICATE-----\n\
MIIBajCCARygAwIBAgIUVpRryyfrIuZvOfi1DeWPKL3CsyowBQYDK2VwMBYxFDAS\n\
BgNVBAMMC3Nhbi5leGFtcGxlMCAXDTI2MTExODA3MDI1MVoYDzIxMjYxMDI1MDcw\n\
MjUxWjAWMRQwEgYDVQQDDAtzYW4uZXhhbXBsZTAqMAUGAytlcAMhAGG/wA3ykJGE\n\
nOb6Zge/zIcnXeJ4o+M47T2Kywu9209oo3oweDAdBgNVHQ4EFgQUop7f3eCx9Ain\n\
c3xRnZWI2EcuDeUwHwYDVR0jBBgwFoAUop7f3eCx9Ainc3xRnZWI2EcuDeUwDwYD\n\
VR0TAQH/BAUwAwEB/zAlBgNVHREEHjAcgglhLmV4YW1wbGWHBMAAAgGCCWIuZXhh\n\
bXBsZTAFBgMrZXADQQB6/RaG4IUwZckkss2rwYFZdKTokwjr1IKYhPS4PeOP/rWy\n\
STJTutUtpCdrXkQUHIoSV4opV6USLnWmPAcO+bMJ\n\
-----END CERTIFICATE-----\n";
const RSA_PEM: &str = "-----BEGIN CERTIFICATE-----\n\
MIIDKzCCAhOgAwIBAgIUOSM4/HMoYj99tbMhe4j24r8grUgwDQYJKoZIhvcNAQEL\n\
BQAwJDEUMBIGA1UEAwwLcnNhLmV4YW1wbGUxDDAKBgNVBAoMA09yZzAgFw0yNjEx\n\
MTgwNzAyNTFaGA8yMTI2MTAyNTA3MDI1MVowJDEUMBIGA1UEAwwLcnNhLmV4YW1w\n\
bGUxDDAKBgNVBAoMA09yZzCCASIwDQYJKoZIhvcNAQEBBQADggEPADCCAQoCggEB\n\
ALXt85H3VPC71jaX+Nq4tSVGBJB6ZpJYXEbIksjlRizJfCR6eJxjwVifIYXZ1Dxi\n\
n7zcIqHWD33JFZsQ/+tzq2lICmguaF4pRFHzVFupHGly/FFTfcE1JCV3Nwcs9WRs\n\
M+pBDp9fjqfoVIJx+OMfXP+3CFzsbCvoOs7mlLZ245WuqSG068z3XyT7MZKl7VVc\n\
ev0t9sT7L83/T2i/WOMZaRTFhOBH9mfrDXxkLl9P59J2IK8vQNT9eyOOJQjMmwCn\n\
GiEA1F1r04QbY4YguswSb4eGtf4pUmK54j3LHQgLAA/QAkmw0nl1Lz6t4wrDGzpI\n\
uXuDNRurNy4740hZnfhT8asCAwEAAaNTMFEwHQYDVR0OBBYEFIsIYIkMri2wv+lR\n\
NIybC+g7XrHPMB8GA1UdIwQYMBaAFIsIYIkMri2wv+lRNIybC+g7XrHPMA8GA1Ud\n\
EwEB/wQFMAMBAf8wDQYJKoZIhvcNAQELBQADggEBAIrPjTZgod1wBz11KGnol1UJ\n\
Myu2M5TFI2YLGFhpjgkU7amwHaWw0nYTiu9EDuB7tyg0Ljt0uicGQhHWlDrJBhPY\n\
7sTI9UlLPevNepfOuTCsqlIdZwTjYrkmdOHHs/4kiRN8kvXv7QIv9gwuSrlrLiFd\n\
i4NI41U3E6ugpOwo7BgKCiTaeIV/viZkC0j2CWzkv25zyhm4+Oi13xW+OHhF6Pgd\n\
zAFOOYeR1D3EV20odVM7f5/riV2wwRe9DVE3OYTtmBC69Uk9ib7HAEx6POxlZmEU\n\
DVlfocxllbOIS1hcU4CR/JwATL2u0ZorsBoO/QuHiRR/Z6jft8H3sx8Zw2ngH0E=\n\
-----END CERTIFICATE-----\n";

fn record(path: &str, kind: &str, name: Option<&str>, subject: &str, issuer: &str) -> CertificateRecord {
    CertificateRecord {
        path: path.to_string(),
        name: name.map(|n| n.to_string()),
        kind: kind.to_string(),
        profile: Some("ed25519".to_string()),
        common_name: subject.trim_start_matches("CN=").to_string(),
        algorithm: "Ed25519".to_string(),
        expires: "2126-10-25 07:02 UTC".to_string(),
        issuer: issuer.to_string(),
        subject: subject.to_string(),
        domains: Vec::new(),
    }
}

#[test]
fn list_empty_directory_succeeds() {
    let report = list_certificates(Vec::new());
    assert!(report.ok);
    assert_eq!(report.code, 0);
    assert!(report.message.contains("listed 0 certificate(s)"));
    assert_eq!(report.certificates.map(|c| c.len()), Some(0));
}

#[test]
fn list_reads_certificates_and_json_output() {
    let record = parse_certificate(EXAMPLE_PEM.as_bytes(), "certs/example.pem").unwrap();
    let report = list_certificates(vec![record]);
    assert!(report.ok);
    let certificates = report.certificates.unwrap();
    assert_eq!(certificates[0].common_name, "example.test");
    assert_eq!(certificates[0].algorithm, "Ed25519");
    assert!(certificates[0].expires.contains("UTC"));
}

#[test]
fn verbose_list_includes_the_certificate_openssl_command() {
    let mut openssl = OpenSsl { binary: "openssl".to_string(), commands: Vec::new() };
    let args = inspection_args("/pki/certs/example.pem");
    assert!(openssl
        .run(&args, true, Some(0), "subject=CN=example.test".to_string(), String::new(), 23, 0)
        .is_ok());
    let lines = verbose_commands(&openssl.commands);
    let text = lines.join("\n");
    assert!(text.contains("x509"));
    assert!(text.contains("-noout"));
    assert!(text.contains("-subject"));
    assert!(text.contains("-pubkey"));
    assert!(text.contains("stdout:"));
    assert!(text.contains("stderr:"));
    assert!(!text.contains("openssl:"));
}

#[test]
fn human_list_indents_intermediates_and_leaves() {
    let root = parse_certificate(ROOT_PEM.as_bytes(), "ed25519/root/root/ca/certs/ca.cert.pem").unwrap();
    let report = list_certificates(vec![root]);
    let text = render_tree(&report.certificates.unwrap());
    assert!(text.contains("root (root_ca)"));
}

#[test]
fn list_json_output_is_explicit_and_includes_name_fields() {
    let record = parse_certificate(SERVICE_PEM.as_bytes(), "ed25519/certs/service/certs/cert.pem").unwrap();
    assert_eq!(record.name.as_deref(), Some("service"));
    assert_eq!(record.kind, "certificate");
    assert_eq!(record.profile.as_deref(), Some("ed25519"));
}

#[test]
fn parsed_record_holds_every_field() {
    let record = parse_certificate(EXAMPLE_PEM.as_bytes(), "certs/example.pem").unwrap();
    assert_eq!(record.path, "certs/example.pem");
    assert_eq!(record.name, None);
    assert_eq!(record.kind, "unclassified");
    assert_eq!(record.profile, None);
    assert_eq!(record.subject, "CN=example.test");
    assert_eq!(record.issuer, "CN=example.test");
    assert_eq!(record.expires, "2126-10-25 07:02 UTC");
    assert!(record.domains.is_empty());
}

#[test]
fn parsed_record_keeps_dns_names_only() {
    let record = parse_certificate(SAN_PEM.as_bytes(), "ed25519/certs/san/certs/cert.pem").unwrap();
    assert_eq!(record.domains, vec!["a.example".to_string(), "b.example".to_string()]);
    assert_eq!(record.common_name, "san.example");
}

#[test]
fn rsa_certificates_are_named_rsa() {
    let record = parse_certificate(RSA_PEM.as_bytes(), "rsa-4096/root/x/ca/certs/ca.cert.pem").unwrap();
    assert_eq!(record.algorithm, "RSA");
    assert_eq!(record.subject, "CN=rsa.example, O=Org");
    assert_eq!(record.kind, "root_ca");
    assert_eq!(record.name.as_deref(), Some("x"));
}

#[test]
fn text_that_is_not_pem_is_refused() {
    assert_eq!(parse_certificate(b"hello", "certs/a.pem").unwrap_err(), "not PEM");
    let broken = "-----BEGIN CERTIFICATE-----\nAAAA\n-----END CERTIFICATE-----\n";
    assert_eq!(parse_certificate(broken.as_bytes(), "certs/a.pem").unwrap_err(), "not X.509");
}

#[test]
fn subject_fields_are_read_from_a_parent_certificate() {
    let subject = read_subject(RSA_PEM.as_bytes()).unwrap();
    assert_eq!(subject.common_name, "rsa.example");
    assert_eq!(subject.organization.as_deref(), Some("Org"));
    assert_eq!(subject.country, None);
    let failure = read_subject(b"nothing").unwrap_err();
    assert_eq!(failure, (4, "parent certificate is not PEM".to_string()));
}

#[test]
fn paths_are_classified_by_layout() {
    assert_eq!(
        classify_certificate_path("ed25519/intermediate/issuing/ca/certs/ca.cert.pem"),
        (Some("issuing".to_string()), "intermediate_ca".to_string(), Some("ed25519".to_string()))
    );
    assert_eq!(
        classify_certificate_path("ed25519/root/ca/certs/ca.cert.pem"),
        (None, "unclassified".to_string(), None)
    );
    assert_eq!(
        classify_certificate_path("ecdsa-p256/certs/web/certs/cert.pem"),
        (Some("web".to_string()), "certificate".to_string(), Some("ecdsa-p256".to_string()))
    );
}

#[test]
fn listed_files_exclude_keys_requests_and_chains() {
    assert!(is_certificate_file("ca.cert.pem", "ed25519/root/ca/certs/ca.cert.pem"));
    assert!(is_certificate_file("web.crt", "web.crt"));
    assert!(is_certificate_file("web.cer", "x/web.cer"));
    assert!(!is_certificate_file("ca.key.pem", "ed25519/root/ca/private/ca.key.pem"));
    assert!(!is_certificate_file("ca.csr.pem", "x/csr/ca.csr.pem"));
    assert!(!is_certificate_file("fullchain.pem", "x/chain/fullchain.pem"));
    assert!(!is_certificate_file("cert.pem", "x/private/cert.pem"));
    assert!(!is_certificate_file("notes.txt", "notes.txt"));
}

#[test]
fn algorithms_and_timestamps_are_formatted() {
    assert_eq!(format_algorithm("1.2.840.10045.2.1".to_string()), "ECDSA");
    assert_eq!(format_algorithm("1.3.101.112".to_string()), "Ed25519");
    assert_eq!(format_algorithm("1.2.840.113549.1.1.1".to_string()), "RSA");
    assert_eq!(format_algorithm("1.3.101.113".to_string()), "1.3.101.113");
    assert_eq!(format_timestamp(0), "1970-01-01 00:00 UTC");
    assert_eq!(format_timestamp(1_700_000_000), "2023-11-14 22:13 UTC");
    assert_eq!(format_timestamp(-86_400), "1969-12-31 00:00 UTC");
    assert_eq!(format_timestamp(i64::MAX), format!("unix:{}", i64::MAX));
    assert_eq!(format_timestamp(4_948_585_371), "2126-10-25 07:02 UTC");
    assert_eq!(format_timestamp(951_782_400), "2000-02-29 00:00 UTC");
    assert_eq!(format_timestamp(-1), "1969-12-31 23:59 UTC");
    assert_eq!(format_timestamp(253_402_300_799), "9999-12-31 23:59 UTC");
    assert_eq!(format_timestamp(253_402_300_800), "unix:253402300800");
    assert_eq!(format_timestamp(-377_705_116_800), "-9999-01-01 00:00 UTC");
    assert_eq!(format_timestamp(-377_705_116_801), "unix:-377705116801");
}

#[test]
fn tree_places_each_record_under_its_issuer() {
    let records = vec![
        record("ed25519/certs/web/certs/cert.pem", "certificate", Some("web"), "CN=web", "CN=Issuing"),
        record("ed25519/root/root/ca/certs/ca.cert.pem", "root_ca", Some("root"), "CN=Root", "CN=Root"),
        record("ed25519/intermediate/issuing/ca/certs/ca.cert.pem", "intermediate_ca", Some("issuing"), "CN=Issuing", "CN=Root"),
        record("stray.pem", "unclassified", None, "CN=stray", "CN=Unknown"),
    ];
    let text = render_tree(&records);
    let lines: Vec<&str> = text.split('\n').collect();
    assert_eq!(lines.len(), 4);
    let root = lines.iter().position(|l| l.starts_with("root (root_ca) — Root [Ed25519] — expires")).unwrap();
    let issuing = lines.iter().position(|l| l.starts_with("  issuing (intermediate_ca)")).unwrap();
    let web = lines.iter().position(|l| l.starts_with("    web (certificate)")).unwrap();
    assert!(lines.contains(&"<unnamed> (unclassified) — stray [Ed25519] — expires 2126-10-25 07:02 UTC"));
    assert!(root < issuing && issuing < web);
}

#[test]
fn tree_of_nothing_is_empty() {
    assert_eq!(render_tree(&[]), "");
}

#[test]
fn display_key_orders_by_profile_kind_name_common_name_and_path() {
    let r = record("p.pem", "root_ca", None, "CN=x", "CN=x");
    assert_eq!(
        display_sort_key(&r),
        vec!["ed25519".to_string(), "root_ca".to_string(), String::new(), "x".to_string(), "p.pem".to_string()]
    );
}

#[test]
fn listing_sorts_by_subject_then_path() {
    let records = vec![
        record("b.pem", "unclassified", None, "CN=b", "CN=b"),
        record("z.pem", "unclassified", None, "CN=a", "CN=a"),
        record("a.pem", "unclassified", None, "CN=b", "CN=b"),
    ];
    let report = list_certificates(records);
    assert_eq!(report.message, "listed 3 certificate(s)");
    let paths: Vec<String> = report.certificates.unwrap().into_iter().map(|r| r.path).collect();
    assert_eq!(paths, vec!["z.pem".to_string(), "a.pem".to_string(), "b.pem".to_string()]);
}

#[test]
fn siblings_and_top_records_come_in_display_order() {
    let records = vec![
        record("z/b.pem", "certificate", Some("b"), "CN=b", "CN=Root"),
        record("z/root.pem", "root_ca", Some("root"), "CN=Root", "CN=Root"),
        record("z/a.pem", "certificate", Some("a"), "CN=a", "CN=Root"),
        record("z/alpha.pem", "root_ca", Some("alpha"), "CN=Alpha", "CN=Alpha"),
    ];
    let text = render_tree(&records);
    let names: Vec<&str> = text.split('\n').map(|l| l.split(" (").next().unwrap()).collect();
    assert_eq!(names, vec!["alpha", "root", "  a", "  b"]);
}

#[test]
fn records_on_an_issuer_cycle_stay_visible_once() {
    let records = vec![
        record("x.pem", "unclassified", Some("x"), "CN=x", "CN=y"),
        record("y.pem", "unclassified", Some("y"), "CN=y", "CN=x"),
        record("z.pem", "unclassified", Some("z"), "CN=z", "CN=y"),
    ];
    let text = render_tree(&records);
    let names: Vec<&str> = text.split('\n').map(|l| l.split(" (").next().unwrap()).collect();
    assert_eq!(names, vec!["x", "  y", "    z"]);
}

#[test]
fn records_with_an_ambiguous_issuer_stand_at_the_top() {
    let records = vec![
        record("a.pem", "unclassified", Some("a"), "CN=dup", "CN=dup"),
        record("b.pem", "unclassified", Some("b"), "CN=dup", "CN=dup"),
        record("c.pem", "unclassified", Some("c"), "CN=c", "CN=dup"),
    ];
    let text = render_tree(&records);
    let names: Vec<&str> = text.split('\n').map(|l| l.split(" (").next().unwrap()).collect();
    assert_eq!(names, vec!["a", "b", "c"]);
}

#[test]
fn records_are_built_from_certificate_fields() {
    let entries = vec![Some("a.example".to_string()), None, Some("b.example".to_string())];
    let record = gywadmin_pki::certificate::record_from_fields(
        "ecdsa-p256/certs/web/certs/cert.pem",
        "CN=web".to_string(),
        "CN=Issuing".to_string(),
        None,
        &entries,
        "1.2.840.10045.2.1".to_string(),
        "2030-01-02 03:04 UTC".to_string(),
    );
    assert_eq!(record.common_name, "<no common name>");
    assert_eq!(record.algorithm, "ECDSA");
    assert_eq!(record.domains, vec!["a.example".to_string(), "b.example".to_string()]);
    assert_eq!(record.kind, "certificate");
    assert_eq!(record.name.as_deref(), Some("web"));
    assert_eq!(record.profile.as_deref(), Some("ecdsa-p256"));
    assert_eq!(record.expires, "2030-01-02 03:04 UTC");
}

#[test]
fn utc_times_are_padded() {
    assert_eq!(gywadmin_pki::certificate::utc_text(987, 1, 2, 3, 4), "0987-01-02 03:04 UTC");
    assert_eq!(gywadmin_pki::certificate::utc_text(-5, 12, 31, 23, 59), "-005-12-31 23:59 UTC");
    assert_eq!(gywadmin_pki::certificate::utc_text(12345, 10, 10, 10, 10), "12345-10-10 10:10 UTC");
}

#[test]
fn listings_visit_files_in_path_order() {
    let paths: Vec<String> = ["/pki/b/cert.pem", "/pki/a/z.pem", "/pki/a-b/x.pem", "/pki/a/z.pem"]
        .iter()
        .map(|p| p.to_string())
        .collect();
    assert_eq!(
        gywadmin_pki::report::inspection_order(&paths),
        vec!["/pki/a-b/x.pem", "/pki/a/z.pem", "/pki/a/z.pem", "/pki/b/cert.pem"]
    );
}

/// A certificate whose alternative names are IP:192.0.2.7, DNS:a.example and DNS:*.b.example.
const ISSUED_PEM: &str = "-----BEGIN CERTIFICATE-----\n\
MIIBXDCCAQ6gAwIBAgIUVv1lYT7v6JgGolshRCDpTRLXU5owBQYDK2VwMA8xDTAL\n\
BgNVBAMMBGxlYWYwHhcNMjYxMTE4MDk0NzUzWhcNMjYxMjE4MDk0NzUzWjAPMQ0w\n\
CwYDVQQDDARsZWFmMCowBQYDK2VwAyEAhYVR0L/yMRae4TdQl8xUsXmuj0MdvjLy\n\
5noyaeJ5XHqjfDB6MB0GA1UdDgQWBBQggtsg7wmvbXVeA/cBr/7t8DAOhzAfBgNV\n\
HSMEGDAWgBQggtsg7wmvbXVeA/cBr/7t8DAOhzAPBgNVHRMBAf8EBTADAQH/MCcG\n\
A1UdEQQgMB6HBMAAAgeCCWEuZXhhbXBsZYILKi5iLmV4YW1wbGUwBQYDK2VwA0EA\n\
YRlE+6PA6OxkV6X6Dr1V0ow0Opr/E64Gy7oaN79H7ttjlOB5DiMZlsIIZoP0Eorw\n\
HKCPjgY/FubRmFuqk31uAg==\n\
-----END CERTIFICATE-----\n";

#[test]
fn issued_names_are_checked_against_the_request() {
    let names = |v: &[&str]| v.iter().map(|s| s.to_string()).collect::<Vec<String>>();
    let bytes = ISSUED_PEM.as_bytes();
    assert_eq!(
        check_issued_sans(bytes, &names(&["*.b.example", "192.0.2.7", "a.example"]), &vec![false, true, false]),
        Ok(())
    );
    let refused = Err((11, "issued certificate does not carry the requested subject alternative names".to_string()));
    assert_eq!(check_issued_sans(bytes, &names(&["*.b.example", "a.example"]), &vec![false, false]), refused);
    assert_eq!(
        check_issued_sans(bytes, &names(&["*.b.example", "192.0.2.7", "c.example"]), &vec![false, true, false]),
        refused
    );
    assert_eq!(
        check_issued_sans(bytes, &names(&["*.b.example", "192.0.2.7", "198.51.100.1", "a.example"]), &vec![false, true, true, false]),
        refused
    );
    assert_eq!(
        check_issued_sans(b"not a certificate", &names(&["a.example"]), &vec![false]),
        Err((11, "issued certificate is not PEM".to_string()))
    );
}

#[test]
fn listings_run_openssl_per_file_only_when_verbose() {
    let files: Vec<String> = vec!["/pki/a.pem".to_string(), "/pki/b.pem".to_string()];
    let runs = gywadmin_pki::dispatch::listing_runs(&files, true);
    assert_eq!(runs.len(), 2);
    assert_eq!(runs[0], inspection_args("/pki/a.pem"));
    assert_eq!(runs[1], inspection_args("/pki/b.pem"));
    assert_eq!(
        gywadmin_pki::dispatch::listing_runs(&files, false),
        vec![vec!["x509".to_string(), "-help".to_string()]]
    );
}

#[test]
fn tree_text_ignores_the_order_records_were_found_in() {
    let make = || {
        vec![
            record("ed25519/certs/web/certs/cert.pem", "certificate", Some("web"), "CN=web", "CN=Issuing"),
            record("ed25519/root/root/ca/certs/ca.cert.pem", "root_ca", Some("root"), "CN=Root", "CN=Root"),
            record("ed25519/intermediate/issuing/ca/certs/ca.cert.pem", "intermediate_ca", Some("issuing"), "CN=Issuing", "CN=Root"),
            record("ed25519/certs/api/certs/cert.pem", "certificate", Some("api"), "CN=api", "CN=Issuing"),
            record("stray.pem", "unclassified", None, "CN=stray", "CN=Unknown"),
        ]
    };
    let first = render_tree(&make());
    let mut reversed = make();
    reversed.reverse();
    assert_eq!(render_tree(&reversed), first);
    let mut rotated = make();
    rotated.rotate_left(2);
    assert_eq!(render_tree(&rotated), first);
}
