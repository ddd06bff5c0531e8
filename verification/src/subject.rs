//! Certificate subjects: building, checking and inheriting them.
use vstd::prelude::*;
use crate::model::Failure;
use crate::text::{blank, char_is_letter, chars_of, is_letter, owned, text_blank, opt_text};

verus! {

/// The subject fields of a CA or certificate.
#[derive(Debug)]
pub struct SubjectArgs {
    pub common_name: String,
    pub organization: Option<String>,
    pub organizational_unit: Option<String>,
    pub country: Option<String>,
    pub state: Option<String>,
    pub locality: Option<String>,
}

/// The subject fields as text.
pub struct SubjectView {
    pub common_name: Seq<char>,
    pub organization: Option<Seq<char>>,
    pub organizational_unit: Option<Seq<char>>,
    pub country: Option<Seq<char>>,
    pub state: Option<Seq<char>>,
    pub locality: Option<Seq<char>>,
}

impl View for SubjectArgs {
    type V = SubjectView;

    open spec fn view(&self) -> SubjectView {
        SubjectView {
            common_name: self.common_name@,
            organization: opt_text(self.organization),
            organizational_unit: opt_text(self.organizational_unit),
            country: opt_text(self.country),
            state: opt_text(self.state),
            locality: opt_text(self.locality),
        }
    }
}

/// The value text, or nothing.
pub open spec fn or_empty(value: Option<Seq<char>>) -> Seq<char> {
    match value {
        Some(v) => v,
        None => Seq::empty(),
    }
}

/// `prefix` and the value when there is one, else nothing.
pub open spec fn dn_part(prefix: Seq<char>, value: Option<Seq<char>>) -> Seq<char> {
    match value {
        Some(v) => prefix + v,
        None => Seq::empty(),
    }
}

/// The OpenSSL `-subj` text of a subject: common name and organization always (an absent
/// organization as empty text), then each optional field that is present.
pub open spec fn dn_text(s: SubjectView) -> Seq<char> {
    "/CN="@ + s.common_name + "/O="@ + or_empty(s.organization) + dn_part(
        "/OU="@,
        s.organizational_unit,
    ) + dn_part("/C="@, s.country) + dn_part("/ST="@, s.state) + dn_part("/L="@, s.locality)
}

fn append_part(r: &mut String, prefix: &str, value: &Option<String>)
    ensures
        final(r)@ == old(r)@ + dn_part(prefix@, opt_text(*value)),
{
    match value {
        Some(v) => {
            r.append(prefix);
            r.append(v.as_str());
        },
        None => {
            assert(old(r)@ + dn_part(prefix@, opt_text(*value)) =~= old(r)@);
        },
    }
}

impl SubjectArgs {
    /// A copy of this subject.
    pub fn copy(&self) -> (r: SubjectArgs)
        ensures
            r@ == self@,
    {
        SubjectArgs {
            common_name: self.common_name.clone(),
            organization: clone_opt(&self.organization),
            organizational_unit: clone_opt(&self.organizational_unit),
            country: clone_opt(&self.country),
            state: clone_opt(&self.state),
            locality: clone_opt(&self.locality),
        }
    }
}

/// Clones an optional text.
pub fn clone_opt(value: &Option<String>) -> (r: Option<String>)
    ensures
        opt_text(r) == opt_text(*value),
{
    match value {
        Some(v) => Some(v.clone()),
        None => None,
    }
}

/// The child value where there is one, else the parent's.
pub open spec fn inherit(child: Option<Seq<char>>, parent: Option<Seq<char>>) -> Option<Seq<char>> {
    match child {
        Some(v) => Some(v),
        None => parent,
    }
}

/// The subject of a child: its own common name, and each optional field its own where
/// given, else the parent's.
pub open spec fn inherited(parent: SubjectView, child: SubjectView) -> SubjectView {
    SubjectView {
        common_name: child.common_name,
        organization: inherit(child.organization, parent.organization),
        organizational_unit: inherit(child.organizational_unit, parent.organizational_unit),
        country: inherit(child.country, parent.country),
        state: inherit(child.state, parent.state),
        locality: inherit(child.locality, parent.locality),
    }
}

fn or_inherit(child: &Option<String>, parent: &Option<String>) -> (r: Option<String>)
    ensures
        opt_text(r) == inherit(opt_text(*child), opt_text(*parent)),
{
    match child {
        Some(v) => Some(v.clone()),
        None => clone_opt(parent),
    }
}

/// The subject is complete: a common name and an organization that are not blank.
pub open spec fn subject_complete(s: SubjectView) -> bool {
    !blank(s.common_name) && !blank(or_empty(s.organization))
}

/// A country, where given, is a two-letter code: exactly two ASCII letters.
pub open spec fn country_ok(s: SubjectView) -> bool {
    match s.country {
        Some(c) => c.len() == 2 && is_letter(c[0]) && is_letter(c[1]),
        None => true,
    }
}

impl SubjectArgs {
    /// The OpenSSL `-subj` text of this subject.
    pub fn distinguished_name(&self) -> (r: String)
        ensures
            r@ == dn_text(self@),
    {
        let mut r = owned("/CN=");
        r.append(self.common_name.as_str());
        r.append("/O=");
        match &self.organization {
            Some(o) => r.append(o.as_str()),
            None => {},
        }
        append_part(&mut r, "/OU=", &self.organizational_unit);
        append_part(&mut r, "/C=", &self.country);
        append_part(&mut r, "/ST=", &self.state);
        append_part(&mut r, "/L=", &self.locality);
        r
    }
}

/// Checks that the common name and organization are given and not blank, and that a
/// country, where given, is two ASCII letters.
pub fn validate_subject(subject: &SubjectArgs) -> (r: Result<(), Failure>)
    ensures
        match r {
            Ok(()) => subject_complete(subject@) && country_ok(subject@),
            Err(e) => e.0 == 4 && if !subject_complete(subject@) {
                e.1@ == "common name and organization are required"@
            } else {
                !country_ok(subject@) && e.1@ == "country must be two letters"@
            },
        },
{
    let organization_blank = match &subject.organization {
        Some(o) => text_blank(o.as_str()),
        None => true,
    };
    if text_blank(subject.common_name.as_str()) || organization_blank {
        return Err((4, owned("common name and organization are required")));
    }
    match &subject.country {
        Some(country) => {
            let c = chars_of(country.as_str());
            if c.len() != 2 || !char_is_letter(c[0]) || !char_is_letter(c[1]) {
                return Err((4, owned("country must be two letters")));
            }
        },
        None => {},
    }
    Ok(())
}

/// A subject built from the child's values, taking each omitted optional field from the parent.
pub fn inherited_subject(parent: &SubjectArgs, child: &SubjectArgs) -> (r: SubjectArgs)
    ensures
        r@ == inherited(parent@, child@),
{
    SubjectArgs {
        common_name: child.common_name.clone(),
        organization: or_inherit(&child.organization, &parent.organization),
        organizational_unit: or_inherit(&child.organizational_unit, &parent.organizational_unit),
        country: or_inherit(&child.country, &parent.country),
        state: or_inherit(&child.state, &parent.state),
        locality: or_inherit(&child.locality, &parent.locality),
    }
}

} // verus!
