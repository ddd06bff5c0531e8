//! What the certificate rules promise of every input: requested key usages are written as
//! requested, a CA name is checked against every CA directory that could hold it, path
//! lengths are written as given and only when given, and DNS labels do not depend on case.
use vstd::prelude::*;
use crate::create::{child_path_len, intermediate_actions, SignerView, intermediate_checks, intermediate_step, root_checks, root_step, IntermediateArgs};
use crate::laws::lemma_decimal_digits;
use crate::layout::{ca_dir, name_clash_paths};
use crate::model::{all_digits, digits_value, key_usage_name, KeyUsage, Profile};
use crate::ops::{ActionView, FactsView, NeedView, StepView};
use crate::subject::SubjectView;
use crate::subject::dn_text;
use crate::plans::{leaf_extension_text, pathlen_suffix, intermediate_extension_text, root_certificate_args, root_extension_text, RootArgs};
use crate::rules::{dns_label, dns_name, dns_body, invalid_san, usage_text};
use crate::text::{decimal, is_digit, joined, split_on, starts_with};

verus! {

proof fn lemma_joined_concat(a: Seq<Seq<char>>, b: Seq<Seq<char>>, sep: Seq<char>)
    requires
        a.len() > 0,
        b.len() > 0,
    ensures
        joined(a + b, sep) == joined(a, sep) + sep + joined(b, sep),
    decreases b.len(),
{
    let ab = a + b;
    if b.len() == 1 {
        assert(ab.drop_last() =~= a);
        assert(ab.last() == b[0]);
    } else {
        assert(ab.drop_last() =~= a + b.drop_last());
        lemma_joined_concat(a, b.drop_last(), sep);
        assert(ab.last() == b.last());
    }
}

/// A non-empty list of requested key usages is written as exactly those usages, in order,
/// separated by commas, whether the certificate is a CA or a leaf: one usage is its name,
/// and two lists one after the other are the two texts joined by a comma.
pub proof fn law_requested_key_usages(s: Seq<KeyUsage>, t: Seq<KeyUsage>, u: KeyUsage, ca: bool)
    ensures
        s.len() > 0 ==> usage_text(s, ca) == usage_text(s, !ca),
        usage_text(seq![u], ca) == key_usage_name(u),
        s.len() > 0 && t.len() > 0 ==> usage_text(s + t, ca) == usage_text(s, ca) + ","@ + usage_text(t, ca),
{
    let f = |x: KeyUsage| key_usage_name(x);
    assert(seq![u].map_values(f) =~= seq![key_usage_name(u)]);
    if s.len() > 0 && t.len() > 0 {
        assert((s + t).map_values(f) =~= s.map_values(f) + t.map_values(f));
        lemma_joined_concat(s.map_values(f), t.map_values(f), ","@);
    }
}

/// Whether `kind` is one of the two kinds of CA.
pub open spec fn ca_kind(kind: Seq<char>) -> bool {
    kind == "root"@ || kind == "intermediate"@
}

proof fn lemma_clash_paths_cover(dir: Seq<char>, name: Seq<char>, p: Profile, kind: Seq<char>)
    requires
        ca_kind(kind),
    ensures
        name_clash_paths(dir, name).contains(ca_dir(dir, p, kind, name)),
{
    let paths = name_clash_paths(dir, name);
    let k: int = match p {
        Profile::EcdsaP256 => 0int,
        Profile::Ed25519 => 2int,
        Profile::Rsa4096 => 4int,
    } + if kind == "root"@ {
        0int
    } else {
        1int
    };
    assert(paths[k] == ca_dir(dir, p, kind, name));
}

/// A CA name is checked against every CA directory that could hold it: once the options of
/// a root CA are valid, the name check asks about the root and intermediate directory of
/// that name under every profile.
pub proof fn law_root_name_check_covers_every_ca(
    dir: Seq<char>,
    args: RootArgs,
    facts: FactsView,
    p: Profile,
    kind: Seq<char>,
)
    requires
        ca_kind(kind),
        root_checks(args) is Ok,
        facts.names_in_use is None,
    ensures
        root_step(dir, args, facts) matches StepView::Need(NeedView::NamesInUse(paths)) && paths.contains(
            ca_dir(dir, p, kind, args.name@),
        ),
{
    lemma_clash_paths_cover(dir, args.name@, p, kind);
}

/// A CA name is checked against every CA directory that could hold it: once the options of
/// an intermediate CA are valid, the name check asks about the root and intermediate
/// directory of that name under every profile.
pub proof fn law_intermediate_name_check_covers_every_ca(
    dir: Seq<char>,
    args: IntermediateArgs,
    facts: FactsView,
    p: Profile,
    kind: Seq<char>,
)
    requires
        ca_kind(kind),
        intermediate_checks(args) is Ok,
        facts.names_in_use is None,
    ensures
        intermediate_step(dir, args, facts) matches StepView::Need(NeedView::NamesInUse(paths))
            && paths.contains(ca_dir(dir, p, kind, args.name@)),
{
    lemma_clash_paths_cover(dir, args.name@, p, kind);
}

proof fn lemma_framed_digits(p: Seq<char>, d1: Seq<char>, d2: Seq<char>, s1: Seq<char>, s2: Seq<char>)
    requires
        all_digits(d1),
        all_digits(d2),
        s1.len() > 0,
        s2.len() > 0,
        !is_digit(s1[0]),
        !is_digit(s2[0]),
        p + d1 + s1 == p + d2 + s2,
    ensures
        d1 == d2,
{
    let t = p + d1 + s1;
    let l = p.len() as int;
    if d1.len() < d2.len() {
        assert(t[l + d1.len()] == s1[0]);
        assert((p + d2 + s2)[l + d1.len()] == d2[d1.len() as int]);
        assert(is_digit(d2[d1.len() as int]));
    } else if d2.len() < d1.len() {
        assert((p + d2 + s2)[l + d2.len()] == s2[0]);
        assert(t[l + d2.len()] == d1[d2.len() as int]);
        assert(is_digit(d1[d2.len() as int]));
    } else {
        assert forall|i: int| 0 <= i < d1.len() implies d1[i] == d2[i] by {
            assert(t[l + i] == d1[i]);
            assert((p + d2 + s2)[l + i] == d2[i]);
        }
        assert(d1 =~= d2);
    }
}

/// The extension file of an intermediate CA records its path length: two extension texts
/// are the same only for the same path length, and the text begins with the basic
/// constraints of a CA with that path length.
pub proof fn law_intermediate_extension_keeps_path_length(
    n: u32,
    m: u32,
    u: Seq<KeyUsage>,
    w: Seq<KeyUsage>,
)
    ensures
        intermediate_extension_text(n, u) == intermediate_extension_text(m, w) ==> n == m,
        starts_with(
            intermediate_extension_text(n, u),
            "basicConstraints=critical,CA:TRUE,pathlen:"@ + decimal(n as nat) + "\n"@,
        ),
{
    reveal_strlit("\nkeyUsage=critical,");
    reveal_strlit("\n");
    let p = "basicConstraints=critical,CA:TRUE,pathlen:"@;
    let k = "\nkeyUsage=critical,"@;
    lemma_decimal_digits(n as nat);
    lemma_decimal_digits(m as nat);
    let tail_n = k + usage_text(u, true) + "\nsubjectKeyIdentifier=hash\nauthorityKeyIdentifier=keyid,issuer\n"@;
    let tail_m = k + usage_text(w, true) + "\nsubjectKeyIdentifier=hash\nauthorityKeyIdentifier=keyid,issuer\n"@;
    assert(intermediate_extension_text(n, u) =~= p + decimal(n as nat) + tail_n);
    assert(intermediate_extension_text(m, w) =~= p + decimal(m as nat) + tail_m);
    assert(tail_n[0] == '\n');
    assert(tail_m[0] == '\n');
    if intermediate_extension_text(n, u) == intermediate_extension_text(m, w) {
        lemma_framed_digits(p, decimal(n as nat), decimal(m as nat), tail_n, tail_m);
    }
    let head = p + decimal(n as nat) + "\n"@;
    let t = intermediate_extension_text(n, u);
    assert(t.subrange(0, head.len() as int) =~= head);
}

/// The basic constraints value of a root CA.
pub open spec fn ca_basic_constraints() -> Seq<char> {
    "basicConstraints=critical,CA:TRUE"@
}

/// A root CA gets a path-length constraint only when one is given: without one, its
/// `req -x509` command adds exactly the basic constraints of a CA; giving a path length
/// `v` changes nothing in that command or in the extension file but appending
/// `,pathlen:<v>` to the basic constraints.
pub proof fn law_root_path_length_only_when_given(
    args: RootArgs,
    v: u32,
    key: Seq<char>,
    cert: Seq<char>,
    days: nat,
    source: Option<Seq<char>>,
)
    requires
        args.pathlen is None,
    ensures
        ({
            let with = RootArgs { pathlen: Some(v), ..args };
            let a = root_certificate_args(args, key, cert, days, source);
            let b = root_certificate_args(with, key, cert, days, source);
            &&& a.len() >= 5
            &&& a[a.len() - 6] == "-addext"@
            &&& a[a.len() - 5] == ca_basic_constraints()
            &&& b == a.update(a.len() - 5, ca_basic_constraints() + ",pathlen:"@ + decimal(v as nat))
        }),
        starts_with(root_extension_text(None, args.key_usage@), ca_basic_constraints() + "\n"@),
        root_extension_text(Some(v), args.key_usage@) == ca_basic_constraints() + ",pathlen:"@ + decimal(
            v as nat,
        ) + root_extension_text(None, args.key_usage@).skip(ca_basic_constraints().len() as int),
{
    reveal_strlit("\nkeyUsage=critical,");
    reveal_strlit("\n");
    let with = RootArgs { pathlen: Some(v), ..args };
    let a = root_certificate_args(args, key, cert, days, source);
    let b = root_certificate_args(with, key, cert, days, source);
    let head = seq!["req"@, "-x509"@, "-new"@, "-key"@, key] + (if args.profile == Profile::Rsa4096
        && source is Some {
        seq!["-passin"@, source.unwrap()]
    } else {
        Seq::empty()
    });
    let tail = |basic: Seq<char>|
        seq![
            "-sha256"@,
            "-days"@,
            decimal(days),
            "-subj"@,
            dn_text(args.subject@),
            "-addext"@,
            basic,
            "-addext"@,
            "keyUsage=critical,"@ + usage_text(args.key_usage@, true),
            "-out"@,
            cert,
        ];
    let with_len = ca_basic_constraints() + ",pathlen:"@ + decimal(v as nat);
    assert(pathlen_suffix(None) =~= Seq::<char>::empty());
    assert(a =~= head + tail(ca_basic_constraints()));
    assert(with.profile == args.profile && with.subject == args.subject && with.key_usage == args.key_usage);
    assert("basicConstraints=critical,CA:TRUE"@ + pathlen_suffix(with.pathlen) =~= with_len);
    assert(b =~= head + tail(with_len));
    assert(a.len() == head.len() + 11);
    assert(b =~= a.update(a.len() - 5, with_len));
    let bc = ca_basic_constraints();
    let rest = "\nkeyUsage=critical,"@ + usage_text(args.key_usage@, true)
        + "\nsubjectKeyIdentifier=hash\nauthorityKeyIdentifier=keyid:always,issuer\n"@;
    let none = root_extension_text(None, args.key_usage@);
    assert(none =~= bc + rest);
    assert(none.skip(bc.len() as int) =~= rest);
    assert(root_extension_text(Some(v), args.key_usage@) =~= bc + ",pathlen:"@ + decimal(v as nat) + rest);
    assert(none.subrange(0, (bc + "\n"@).len() as int) =~= bc + "\n"@);
}

/// The same character, or an ASCII letter and the same letter in the other case.
pub open spec fn same_letter(a: char, b: char) -> bool {
    ||| a == b
    ||| 65 <= (a as u32) <= 90 && (b as u32) == (a as u32) + 32
    ||| 97 <= (a as u32) <= 122 && (b as u32) + 32 == (a as u32)
}

/// Two texts that differ at most in the case of ASCII letters.
pub open spec fn same_but_case(s: Seq<char>, t: Seq<char>) -> bool {
    &&& s.len() == t.len()
    &&& forall|i: int| 0 <= i < s.len() ==> same_letter(#[trigger] s[i], t[i])
}

/// Whether a DNS label is valid does not depend on the case of its letters.
pub proof fn law_dns_label_ignores_case(l: Seq<char>, m: Seq<char>)
    requires
        same_but_case(l, m),
    ensures
        dns_label(l) == dns_label(m),
{
    assert forall|i: int| 0 <= i < l.len() implies (crate::text::is_alnum(#[trigger] l[i]) || l[i] == '-')
        == (crate::text::is_alnum(m[i]) || m[i] == '-') by {
        assert(same_letter(l[i], m[i]));
    }
    if l.len() > 0 {
        assert(same_letter(l[0], m[0]));
        assert(same_letter(l[l.len() - 1], m[m.len() - 1]));
    }
    if dns_label(l) {
        assert forall|i: int| 0 <= i < m.len() implies crate::text::is_alnum(#[trigger] m[i]) || m[i] == '-' by {
            assert(crate::text::is_alnum(l[i]) || l[i] == '-');
        }
    }
    if dns_label(m) {
        assert forall|i: int| 0 <= i < l.len() implies crate::text::is_alnum(#[trigger] l[i]) || l[i] == '-' by {
            assert(crate::text::is_alnum(m[i]) || m[i] == '-');
        }
    }
}

proof fn lemma_split_same_but_case(s: Seq<char>, t: Seq<char>)
    requires
        same_but_case(s, t),
    ensures
        split_on(s, '.').len() == split_on(t, '.').len(),
        forall|j: int| 0 <= j < split_on(s, '.').len() ==> same_but_case(
            #[trigger] split_on(s, '.')[j],
            split_on(t, '.')[j],
        ),
    decreases s.len(),
{
    if s.len() > 0 {
        let s1 = s.drop_last();
        let t1 = t.drop_last();
        assert forall|i: int| 0 <= i < s1.len() implies same_letter(#[trigger] s1[i], t1[i]) by {
            assert(same_letter(s[i], t[i]));
        }
        lemma_split_same_but_case(s1, t1);
        assert(same_letter(s.last(), t.last()));
        assert((s.last() == '.') == (t.last() == '.'));
        let p = split_on(s1, '.');
        let q = split_on(t1, '.');
        crate::text::lemma_split_on_nonempty(s1, '.');
        if s.last() != '.' {
            let a = p.last().push(s.last());
            let b = q.last().push(t.last());
            assert(same_but_case(p.last(), q.last()));
            assert forall|i: int| 0 <= i < a.len() implies same_letter(#[trigger] a[i], b[i]) by {
                if i < p.last().len() {
                    assert(same_letter(p.last()[i], q.last()[i]));
                }
            }
            assert(same_but_case(a, b));
        } else {
            assert(same_but_case(Seq::<char>::empty(), Seq::<char>::empty()));
        }
    }
}

/// Whether a subject alternative name is a valid DNS name, and so whether a name that is no
/// IP address is refused, does not depend on the case of its letters.
pub proof fn law_dns_names_ignore_case(v: Seq<char>, w: Seq<char>)
    requires
        same_but_case(v, w),
    ensures
        dns_name(v) == dns_name(w),
        invalid_san(v, false) == invalid_san(w, false),
{
    reveal_strlit("*.");
    let bv = dns_body(v);
    let bw = dns_body(w);
    if v.len() >= 2 {
        assert(same_letter(v[0], w[0]));
        assert(same_letter(v[1], w[1]));
        assert((v[0] == '*') == (w[0] == '*'));
        assert((v[1] == '.') == (w[1] == '.'));
    }
    assert(starts_with(v, "*."@) == starts_with(w, "*."@)) by {
        if v.len() >= 2 {
            assert(v.subrange(0, 2) =~= seq![v[0], v[1]]);
            assert(w.subrange(0, 2) =~= seq![w[0], w[1]]);
        }
    }
    assert(same_but_case(bv, bw)) by {
        if starts_with(v, "*."@) {
            assert forall|i: int| 0 <= i < bv.len() implies same_letter(#[trigger] bv[i], bw[i]) by {
                assert(same_letter(v[i + 2], w[i + 2]));
            }
        }
    }
    lemma_split_same_but_case(bv, bw);
    let ls = split_on(bv, '.');
    let lw = split_on(bw, '.');
    assert forall|j: int| 0 <= j < ls.len() implies dns_label(#[trigger] ls[j]) == dns_label(lw[j]) by {
        law_dns_label_ignores_case(ls[j], lw[j]);
    }
    if dns_name(v) {
        assert forall|j: int| 0 <= j < lw.len() implies dns_label(#[trigger] lw[j]) by {
            assert(dns_label(ls[j]) == dns_label(lw[j]));
        }
    }
    if dns_name(w) {
        assert forall|j: int| 0 <= j < ls.len() implies dns_label(#[trigger] ls[j]) by {
            assert(dns_label(ls[j]) == dns_label(lw[j]));
        }
    }
}

/// Every label made of ASCII letters of either case, digits and inner hyphens, 1 to 63
/// characters long, is a valid DNS label.
pub proof fn law_plain_labels_accepted(l: Seq<char>)
    requires
        1 <= l.len() <= 63,
        forall|i: int|
            0 <= i < l.len() ==> (48 <= (#[trigger] l[i] as u32) <= 57) || (65 <= (l[i] as u32) <= 90) || (97
                <= (l[i] as u32) <= 122) || l[i] == '-',
        l[0] != '-',
        l[l.len() - 1] != '-',
    ensures
        dns_label(l),
{
}

/// The extension file an intermediate CA is signed with carries the path length the CA was
/// asked for (zero when none was given) and its requested key usages.
pub proof fn law_intermediate_writes_its_path_length(
    args: IntermediateArgs,
    profile: Profile,
    subject: SubjectView,
    target: Seq<char>,
    extension: Seq<char>,
    sg: SignerView,
    days: nat,
)
    ensures
        intermediate_actions(args, profile, subject, target, extension, sg, days)[10] == (ActionView::WriteFile {
            path: extension,
            contents: intermediate_extension_text(child_path_len(args), args.key_usage@),
            create_parent: true,
            cleanup: None,
        }),
        args.pathlen == Some(child_path_len(args)) || (args.pathlen is None && child_path_len(args) == 0),
{
}

/// A leaf certificate's extension file states the requested key usages, written as for any
/// certificate, when some are requested.
pub proof fn law_leaf_extension_states_requested_usages(
    sans: Seq<Seq<char>>,
    ip: Seq<bool>,
    usages: Seq<KeyUsage>,
)
    requires
        usages.len() > 0,
    ensures
        starts_with(
            leaf_extension_text(sans, ip, usages),
            "basicConstraints=critical,CA:FALSE\nkeyUsage=critical,"@ + usage_text(usages, true) + "\n"@,
        ),
{
    reveal_strlit("\nextendedKeyUsage=serverAuth\nsubjectAltName=");
    reveal_strlit("\n");
    let head = "basicConstraints=critical,CA:FALSE\nkeyUsage=critical,"@ + usage_text(usages, true);
    let t = leaf_extension_text(sans, ip, usages);
    let rest = "\nextendedKeyUsage=serverAuth\nsubjectAltName="@;
    assert(t.subrange(0, head.len() + 1int) =~= head + "\n"@) by {
        assert(t[head.len() as int] == rest[0]);
        assert forall|i: int| 0 <= i < head.len() implies t[i] == head[i] by {}
    }
}

} // verus!
