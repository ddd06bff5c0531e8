//! Input rules: names, key usages, subject alternative names and passphrases.
use vstd::prelude::*;
use crate::model::{Failure, KeyUsage, key_usage_name};
use crate::text::{chars_of, contains, is_alnum, joined, less, owned, string_of, join, split_on, split_text, starts_with, text_starts_with};
use crate::order::{sort_by_keys, is_permutation, sorted_stably, key_less, lemma_permutation_covers};

verus! {

/// A safe directory name: nonempty, only ASCII letters, digits, `-` and `_`.
pub open spec fn valid_name(v: Seq<char>) -> bool {
    &&& v.len() > 0
    &&& v != "."@
    &&& v != ".."@
    &&& forall|i: int| 0 <= i < v.len() ==> name_char(#[trigger] v[i])
}

/// A character allowed in a safe directory name.
pub open spec fn name_char(c: char) -> bool {
    is_alnum(c) || c == '-' || c == '_'
}

/// Checks that a CA or certificate name is a safe directory name.
pub fn validate_name(value: &str) -> (r: Result<(), Failure>)
    ensures
        match r {
            Ok(()) => valid_name(value@),
            Err(e) => !valid_name(value@) && e.0 == 4 && e.1@
                == "name must contain only ASCII letters, digits, '-' or '_'"@,
        },
{
    let v = chars_of(value);
    let mut ok = v.len() > 0;
    let mut i: usize = 0;
    while i < v.len()
        invariant
            v@ == value@,
            i <= v@.len(),
            ok == (v@.len() > 0 && forall|k: int| 0 <= k < i ==> name_char(#[trigger] v@[k])),
        decreases v.len() - i,
    {
        let c = v[i];
        let n = c as u32;
        let allowed = (48 <= n && n <= 57) || (65 <= n && n <= 90) || (97 <= n && n <= 122)
            || c == '-' || c == '_';
        if !allowed {
            ok = false;
        }
        i = i + 1;
    }
    if ok {
        proof {
            // '.' is not a name character, so neither "." nor ".." passes
            reveal_strlit(".");
            reveal_strlit("..");
            assert(!name_char('.'));
            if value@ == "."@ {
                assert(!name_char(value@[0]));
            }
            if value@ == ".."@ {
                assert(!name_char(value@[0]));
            }
        }
        Ok(())
    } else {
        Err((4, owned("name must contain only ASCII letters, digits, '-' or '_'")))
    }
}

/// The key usage text of an extension: the requested usages joined with commas, or the
/// default for a CA (`keyCertSign,cRLSign`) or a leaf (`digitalSignature,keyEncipherment`).
pub open spec fn usage_text(usages: Seq<KeyUsage>, ca: bool) -> Seq<char> {
    if usages.len() == 0 {
        if ca {
            "keyCertSign,cRLSign"@
        } else {
            "digitalSignature,keyEncipherment"@
        }
    } else {
        joined(usages.map_values(|u: KeyUsage| key_usage_name(u)), ","@)
    }
}

/// The key usage text of an extension.
pub fn key_usages(usages: &[KeyUsage], ca: bool) -> (r: String)
    ensures
        r@ == usage_text(usages@, ca),
{
    if usages.len() == 0 {
        return if ca {
            owned("keyCertSign,cRLSign")
        } else {
            owned("digitalSignature,keyEncipherment")
        };
    }
    let mut names: Vec<String> = Vec::new();
    let mut i: usize = 0;
    while i < usages.len()
        invariant
            i <= usages@.len(),
            names.deep_view() == usages@.take(i as int).map_values(|u: KeyUsage| key_usage_name(u)),
        decreases usages.len() - i,
    {
        let ghost before = names.deep_view();
        let name = owned(usages[i].text());
        names.push(name);
        assert(names.deep_view() =~= before.push(key_usage_name(usages@[i as int])));
        i = i + 1;
        assert(names.deep_view() =~= usages@.take(i as int).map_values(|u: KeyUsage| key_usage_name(u)));
    }
    assert(usages@.take(i as int) =~= usages@);
    join(&names, ",")
}

/// The key usages fit the certificate: a CA's explicit list includes `keyCertSign`, and a
/// leaf asks for neither `keyCertSign` nor `cRLSign`.
pub open spec fn usages_ok_for_ca(usages: Seq<KeyUsage>) -> bool {
    usages.len() == 0 || usages.contains(KeyUsage::KeyCertSign)
}

/// A leaf asks for neither `keyCertSign` nor `cRLSign`.
pub open spec fn usages_ok_for_leaf(usages: Seq<KeyUsage>) -> bool {
    !usages.contains(KeyUsage::KeyCertSign) && !usages.contains(KeyUsage::CrlSign)
}

/// Checks the requested key usages of a CA (`ca`) or of a leaf certificate.
pub fn validate_key_usages(usages: &[KeyUsage], ca: bool) -> (r: Result<(), Failure>)
    ensures
        match r {
            Ok(()) => if ca {
                usages_ok_for_ca(usages@)
            } else {
                usages_ok_for_leaf(usages@)
            },
            Err(e) => e.0 == 4 && if ca {
                !usages_ok_for_ca(usages@) && e.1@ == "CA key usage must include key-cert-sign"@
            } else {
                !usages_ok_for_leaf(usages@) && e.1@
                    == "leaf key usage cannot include key-cert-sign or crl-sign"@
            },
        },
{
    let mut has_cert_sign = false;
    let mut has_crl_sign = false;
    let mut i: usize = 0;
    while i < usages.len()
        invariant
            i <= usages@.len(),
            has_cert_sign == usages@.take(i as int).contains(KeyUsage::KeyCertSign),
            has_crl_sign == usages@.take(i as int).contains(KeyUsage::CrlSign),
        decreases usages.len() - i,
    {
        let u = usages[i];
        proof {
            let t = usages@.take(i + 1);
            assert(t =~= usages@.take(i as int).push(u));
            assert(t.contains(KeyUsage::KeyCertSign) == (usages@.take(i as int).contains(
                KeyUsage::KeyCertSign,
            ) || u == KeyUsage::KeyCertSign)) by {
                if u == KeyUsage::KeyCertSign {
                    assert(t[i as int] == u);
                }
                if usages@.take(i as int).contains(KeyUsage::KeyCertSign) {
                    let k = choose|k: int| 0 <= k < i && usages@.take(i as int)[k] == KeyUsage::KeyCertSign;
                    assert(t[k] == KeyUsage::KeyCertSign);
                }
            }
            assert(t.contains(KeyUsage::CrlSign) == (usages@.take(i as int).contains(
                KeyUsage::CrlSign,
            ) || u == KeyUsage::CrlSign)) by {
                if u == KeyUsage::CrlSign {
                    assert(t[i as int] == u);
                }
                if usages@.take(i as int).contains(KeyUsage::CrlSign) {
                    let k = choose|k: int| 0 <= k < i && usages@.take(i as int)[k] == KeyUsage::CrlSign;
                    assert(t[k] == KeyUsage::CrlSign);
                }
            }
        }
        if u == KeyUsage::KeyCertSign {
            has_cert_sign = true;
        }
        if u == KeyUsage::CrlSign {
            has_crl_sign = true;
        }
        i = i + 1;
    }
    assert(usages@.take(i as int) =~= usages@);
    if ca && usages.len() != 0 && !has_cert_sign {
        return Err((4, owned("CA key usage must include key-cert-sign")));
    }
    if !ca && (has_cert_sign || has_crl_sign) {
        return Err((4, owned("leaf key usage cannot include key-cert-sign or crl-sign")));
    }
    Ok(())
}


/// `out` lists, in strictly increasing order, exactly the texts that occur in `input`.
pub open spec fn sorted_set_of(input: Seq<Seq<char>>, out: Seq<Seq<char>>) -> bool {
    &&& forall|i: int, j: int| 0 <= i < j < out.len() ==> less(out[i], out[j])
    &&& forall|x: Seq<char>| out.contains(x) <==> input.contains(x)
}

proof fn lemma_single_key(a: Seq<char>, b: Seq<char>)
    ensures
        key_less(seq![a], seq![b]) == less(a, b),
{
    assert(seq![a].drop_first() =~= Seq::<Seq<char>>::empty());
    assert(seq![b].drop_first() =~= Seq::<Seq<char>>::empty());
    reveal_with_fuel(key_less, 2);
}

/// The values sorted by code point with duplicates removed.
pub fn sorted_unique(values: &Vec<String>) -> (r: Vec<String>)
    ensures
        sorted_set_of(values.deep_view(), r.deep_view()),
{
    let ghost vv = values.deep_view();
    let mut keys: Vec<Vec<String>> = Vec::new();
    let mut i: usize = 0;
    while i < values.len()
        invariant
            vv == values.deep_view(),
            i <= values@.len(),
            keys@.len() == i,
            forall|k: int| 0 <= k < i ==> (#[trigger] keys.deep_view()[k]) == seq![vv[k]],
        decreases values.len() - i,
    {
        let key = vec![values[i].clone()];
        assert(key.deep_view() =~= seq![vv[i as int]]);
        let ghost before = keys.deep_view();
        keys.push(key);
        assert(keys.deep_view() =~= before.push(seq![vv[i as int]]));
        i = i + 1;
    }
    let ghost kv = keys.deep_view();
    let order = sort_by_keys(&keys);
    let mut r: Vec<String> = Vec::new();
    let mut k: usize = 0;
    while k < order.len()
        invariant
            vv == values.deep_view(),
            kv == keys.deep_view(),
            keys@.len() == values@.len(),
            forall|k: int| 0 <= k < kv.len() ==> (#[trigger] kv[k]) == seq![vv[k]],
            is_permutation(order@, values@.len() as nat),
            sorted_stably(order@, kv),
            k <= order@.len(),
            forall|a: int, b: int| 0 <= a < b < r@.len() ==> less(r.deep_view()[a], r.deep_view()[b]),
            forall|x: Seq<char>| r.deep_view().contains(x) <==> exists|m: int| 0 <= m < k && vv[order@[m] as int] == x,
            k > 0 ==> r@.len() > 0 && r.deep_view().last() == vv[order@[k - 1] as int],
            k == 0 ==> r@.len() == 0,
        decreases order.len() - k,
    {
        let value = &values[order[k]];
        let ghost rv = r.deep_view();
        let ghost x = vv[order@[k as int] as int];
        let fresh = r.len() == 0 || !crate::text::text_eq(r[r.len() - 1].as_str(), value.as_str());
        if fresh {
            r.push(value.clone());
            proof {
                let nv = r.deep_view();
                assert(nv =~= rv.push(x));
                if k > 0 {
                    let y = vv[order@[k - 1] as int];
                    assert(!key_less(kv[order@[k as int] as int], kv[order@[k - 1] as int]));
                    lemma_single_key(x, y);
                    crate::order::lemma_less_total(x, y);
                    assert(less(y, x));
                    assert forall|a: int, b: int| 0 <= a < b < nv.len() implies less(nv[a], nv[b]) by {
                        if b == nv.len() - 1 && a < b - 1 {
                            assert(less(rv[a], rv[rv.len() - 1]));
                            crate::order::lemma_less_transitive(rv[a], y, x);
                        }
                    }
                }
                assert forall|z: Seq<char>| nv.contains(z) <==> exists|m: int| 0 <= m < k + 1 && vv[order@[m] as int] == z by {
                    if nv.contains(z) {
                        let a = choose|a: int| 0 <= a < nv.len() && nv[a] == z;
                        if a < rv.len() {
                            assert(rv.contains(z));
                        } else {
                            assert(vv[order@[k as int] as int] == z);
                        }
                    }
                    if exists|m: int| 0 <= m < k + 1 && vv[order@[m] as int] == z {
                        let m = choose|m: int| 0 <= m < k + 1 && vv[order@[m] as int] == z;
                        if m < k {
                            assert(rv.contains(z));
                            let a = choose|a: int| 0 <= a < rv.len() && rv[a] == z;
                            assert(nv[a] == z);
                        } else {
                            assert(nv[nv.len() - 1] == z);
                        }
                    }
                }
            }
        } else {
            proof {
                assert forall|z: Seq<char>| rv.contains(z) <==> exists|m: int| 0 <= m < k + 1 && vv[order@[m] as int] == z by {
                    if exists|m: int| 0 <= m < k + 1 && vv[order@[m] as int] == z {
                        let m = choose|m: int| 0 <= m < k + 1 && vv[order@[m] as int] == z;
                        if m == k {
                            assert(rv[rv.len() - 1] == z);
                        }
                    }
                }
            }
        }
        k = k + 1;
    }
    proof {
        let rv = r.deep_view();
        assert forall|z: Seq<char>| rv.contains(z) <==> vv.contains(z) by {
            if vv.contains(z) {
                let a = choose|a: int| 0 <= a < vv.len() && vv[a] == z;
                lemma_permutation_covers(order@, vv.len() as nat, a as usize);
                let m = choose|m: int| 0 <= m < order@.len() && order@[m] == a as usize;
                assert(vv[order@[m] as int] == z);
            }
            if rv.contains(z) {
                let m = choose|m: int| 0 <= m < k && vv[order@[m] as int] == z;
                assert(vv[order@[m] as int] == z);
            }
        }
    }
    r
}

/// Each text is less than every later one.
pub open spec fn strictly_sorted(s: Seq<Seq<char>>) -> bool {
    forall|i: int, j: int| 0 <= i < j < s.len() ==> less(s[i], s[j])
}

/// Two strictly sorted lists of the same texts are the same list.
pub proof fn lemma_same_sorted(a: Seq<Seq<char>>, b: Seq<Seq<char>>)
    requires
        strictly_sorted(a),
        strictly_sorted(b),
        forall|x: Seq<char>| a.contains(x) <==> b.contains(x),
    ensures
        a == b,
    decreases a.len(),
{
    if a.len() == 0 {
        if b.len() > 0 {
            assert(b.contains(b[0]));
        }
        assert(a =~= b);
    } else {
        assert(a.contains(a[0]));
        let j = choose|j: int| 0 <= j < b.len() && b[j] == a[0];
        assert(b.contains(b[0]));
        let k = choose|k: int| 0 <= k < a.len() && a[k] == b[0];
        if j > 0 {
            assert(less(b[0], b[j]));
            if k > 0 {
                assert(less(a[0], a[k]));
                crate::order::lemma_less_transitive(a[0], b[0], a[0]);
                crate::order::lemma_less_irreflexive(a[0]);
            } else {
                crate::order::lemma_less_irreflexive(a[0]);
            }
        }
        assert(a[0] == b[0]);
        let a1 = a.drop_first();
        let b1 = b.drop_first();
        assert forall|x: Seq<char>| a1.contains(x) <==> b1.contains(x) by {
            if a1.contains(x) {
                let i = choose|i: int| 0 <= i < a1.len() && a1[i] == x;
                assert(less(a[0], a[i + 1]));
                assert(a.contains(x));
                let m = choose|m: int| 0 <= m < b.len() && b[m] == x;
                if m == 0 {
                    crate::order::lemma_less_irreflexive(a[0]);
                }
                assert(b1[m - 1] == x);
            }
            if b1.contains(x) {
                let i = choose|i: int| 0 <= i < b1.len() && b1[i] == x;
                assert(less(b[0], b[i + 1]));
                assert(b.contains(x));
                let m = choose|m: int| 0 <= m < a.len() && a[m] == x;
                if m == 0 {
                    crate::order::lemma_less_irreflexive(b[0]);
                }
                assert(a1[m - 1] == x);
            }
        }
        assert(strictly_sorted(a1)) by {
            assert forall|i: int, j: int| 0 <= i < j < a1.len() implies less(a1[i], a1[j]) by {
                assert(less(a[i + 1], a[j + 1]));
            }
        }
        assert(strictly_sorted(b1)) by {
            assert forall|i: int, j: int| 0 <= i < j < b1.len() implies less(b1[i], b1[j]) by {
                assert(less(b[i + 1], b[j + 1]));
            }
        }
        lemma_same_sorted(a1, b1);
        assert(a =~= seq![a[0]] + a1);
        assert(b =~= seq![b[0]] + b1);
    }
}

/// The texts of `values`, in strictly increasing order without repeats.
pub open spec fn sorted_set(values: Seq<Seq<char>>) -> Seq<Seq<char>> {
    choose|out: Seq<Seq<char>>| sorted_set_of(values, out)
}

/// A list that arranges the texts strictly increasing is the one `sorted_set` names.
pub proof fn lemma_sorted_set(values: Seq<Seq<char>>, out: Seq<Seq<char>>)
    requires
        sorted_set_of(values, out),
    ensures
        sorted_set(values) == out,
{
    let c = sorted_set(values);
    assert(sorted_set_of(values, c));
    assert forall|x: Seq<char>| c.contains(x) <==> out.contains(x) by {}
    lemma_same_sorted(c, out);
}

/// A DNS label: 1 to 63 ASCII letters, digits or hyphens, neither starting nor ending with
/// a hyphen.
pub open spec fn dns_label(l: Seq<char>) -> bool {
    &&& 1 <= l.len() <= 63
    &&& forall|i: int| 0 <= i < l.len() ==> is_alnum(#[trigger] l[i]) || l[i] == '-'
    &&& l[0] != '-'
    &&& l.last() != '-'
}

/// A DNS name, optionally a wildcard `*.` followed by a name: at most 253 characters of
/// dot-separated valid labels.
pub open spec fn dns_name(v: Seq<char>) -> bool {
    &&& 1 <= dns_body(v).len() <= 253
    &&& forall|j: int|
        0 <= j < split_on(dns_body(v), '.').len() ==> dns_label(#[trigger] split_on(dns_body(v), '.')[j])
}

/// The name after a leading wildcard `*.`, if any.
pub open spec fn dns_body(v: Seq<char>) -> Seq<char> {
    if starts_with(v, "*."@) {
        v.skip(2)
    } else {
        v
    }
}

/// A subject alternative name that is refused: neither an IP address nor a valid DNS name.
pub open spec fn invalid_san(v: Seq<char>, is_ip: bool) -> bool {
    !is_ip && !dns_name(v)
}

fn is_dns_label(l: &str) -> (r: bool)
    ensures
        r == dns_label(l@),
{
    let c = chars_of(l);
    if c.len() < 1 || c.len() > 63 || c[0] == '-' || c[c.len() - 1] == '-' {
        return false;
    }
    let mut i: usize = 0;
    while i < c.len()
        invariant
            c@ == l@,
            i <= c@.len(),
            forall|k: int| 0 <= k < i ==> is_alnum(#[trigger] c@[k]) || c@[k] == '-',
        decreases c.len() - i,
    {
        let ch = c[i];
        let n = ch as u32;
        let ok = (48 <= n && n <= 57) || (65 <= n && n <= 90) || (97 <= n && n <= 122) || ch == '-';
        if !ok {
            return false;
        }
        i = i + 1;
    }
    true
}

/// Whether the text is a valid DNS name, optionally with a leading `*.`.
pub fn is_dns_name(v: &str) -> (r: bool)
    ensures
        r == dns_name(v@),
{
    let c = chars_of(v);
    let body = if text_starts_with(v, "*.") {
        proof {
            reveal_strlit("*.");
        }
        string_of(c.as_slice(), 2, c.len())
    } else {
        owned(v)
    };
    let ghost b = dns_body(v@);
    assert(body@ =~= b);
    let n = chars_of(body.as_str()).len();
    if n < 1 || n > 253 {
        return false;
    }
    let labels = split_text(body.as_str(), '.');
    let ghost lv = labels.deep_view();
    let mut j: usize = 0;
    while j < labels.len()
        invariant
            lv == labels.deep_view(),
            lv == split_on(b, '.'),
            b == dns_body(v@),
            j <= lv.len(),
            forall|k: int| 0 <= k < j ==> dns_label(#[trigger] lv[k]),
        decreases labels.len() - j,
    {
        assert(lv[j as int] == labels@[j as int]@);
        if !is_dns_label(labels[j].as_str()) {
            assert(!dns_label(split_on(b, '.')[j as int]));
            return false;
        }
        j = j + 1;
    }
    true
}

/// The first refused subject alternative name, in order; `ip[i]` tells whether `sans[i]`
/// is an IP address.
pub open spec fn san_error(sans: Seq<Seq<char>>, ip: Seq<bool>) -> Option<Seq<char>>
    decreases sans.len(),
{
    if sans.len() == 0 {
        None
    } else if invalid_san(sans[0], ip.len() > 0 && ip[0]) {
        Some(sans[0])
    } else {
        san_error(sans.drop_first(), ip.drop_first())
    }
}

/// Checks the subject alternative names in order; `ip[i]` tells whether `values[i]` is an IP
/// address. The first refused value is named in the error.
pub fn check_sans(values: &Vec<String>, ip: &Vec<bool>) -> (r: Result<(), Failure>)
    requires
        ip@.len() == values@.len(),
    ensures
        match r {
            Ok(()) => san_error(values.deep_view(), ip@) is None,
            Err(e) => san_error(values.deep_view(), ip@) matches Some(v) && e.0 == 4 && e.1@
                == "invalid SAN: "@ + v,
        },
{
    let ghost vv = values.deep_view();
    let mut i: usize = 0;
    assert(vv.skip(0) =~= vv);
    assert(ip@.skip(0) =~= ip@);
    while i < values.len()
        invariant
            vv == values.deep_view(),
            ip@.len() == values@.len(),
            i <= values@.len(),
            san_error(vv, ip@) == san_error(vv.skip(i as int), ip@.skip(i as int)),
        decreases values.len() - i,
    {
        let v = values[i].as_str();
        assert(vv.skip(i as int)[0] == v@);
        assert(ip@.skip(i as int)[0] == ip@[i as int]);
        if !ip[i] && !is_dns_name(v) {
            let mut message = owned("invalid SAN: ");
            message.append(v);
            return Err((4, message));
        }
        assert(vv.skip(i as int).drop_first() =~= vv.skip(i + 1));
        assert(ip@.skip(i as int).drop_first() =~= ip@.skip(i + 1));
        i = i + 1;
    }
    Ok(())
}

} // verus!
