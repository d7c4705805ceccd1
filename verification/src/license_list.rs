use crate::text::{lemma_replaced_by_nothing, replaced, str_eq, str_replace, str_starts_with};
use vstd::prelude::*;
use vstd::string::StringExecFns;

verus! {

/// One license of a license list.
#[derive(Debug)]
pub struct License {
    pub reference: String,
    pub is_deprecated_license_id: bool,
    pub details_url: String,
    pub reference_number: i32,
    pub name: String,
    pub license_id: String,
    pub see_also: Vec<String>,
    pub is_osi_approved: bool,
    pub is_fsf_libre: bool,
}

/// One license exception of a license list.
#[derive(Debug)]
pub struct Exception {
    pub reference: String,
    pub is_deprecated_license_id: bool,
    pub details_url: String,
    pub reference_number: i32,
    pub name: String,
    pub license_exception_id: String,
    pub see_also: Vec<String>,
}

/// A published list of licenses and license exceptions.
#[derive(Debug)]
pub struct LicenseList {
    pub license_list_version: String,
    pub licenses: Vec<License>,
    pub exceptions: Vec<Exception>,
    pub release_date: String,
}

/// `expression` without its plus signs.
pub open spec fn without_plus(expression: Seq<char>) -> Seq<char> {
    expression.filter(|c: char| c != '+')
}

/// The address from which one file of a version of the list is fetched.
pub open spec fn file_address(version: Seq<char>, file: Seq<char>) -> Seq<char> {
    "https://raw.githubusercontent.com/spdx/license-list-data/"@ + version + "/json/"@ + file
}

/// The version that a request names, or the newest.
pub open spec fn version_or_newest(version: Option<&str>) -> Seq<char> {
    match version {
        Some(named) => named@,
        None => "master"@,
    }
}

/// Writes the address of one file of a version of the list.
fn address_of(version: Option<&str>, file: &str) -> (url: String)
    ensures
        url@ == file_address(version_or_newest(version), file@),
{
    let named = match version {
        Some(named) => named,
        None => "master",
    };
    let mut url = String::from_str("https://raw.githubusercontent.com/spdx/license-list-data/");
    url.append(named);
    url.append("/json/");
    url.append(file);
    url
}

impl LicenseList {
    /// Some license of the list has the identifier `id`.
    pub open spec fn lists_license(self, id: Seq<char>) -> bool {
        exists|i: int| 0 <= i < self.licenses@.len() && (#[trigger] self.licenses@[i]).license_id@ == id
    }

    /// Some exception of the list has the identifier `id`.
    pub open spec fn lists_exception(self, id: Seq<char>) -> bool {
        exists|i: int|
            0 <= i < self.exceptions@.len() && (#[trigger] self.exceptions@[i]).license_exception_id@
                == id
    }

    /// What counts as a license: the two words for an unknown and for no
    /// license, a reference to a license that a document defines, a license of
    /// the list with or without plus signs, and an exception of the list.
    pub open spec fn accepts(self, expression: Seq<char>) -> bool {
        ||| expression == "NOASSERTION"@
        ||| expression == "NONE"@
        ||| "LicenseRef-"@.is_prefix_of(expression)
        ||| "DocumentRef-"@.is_prefix_of(expression)
        ||| self.lists_license(without_plus(expression))
        ||| self.lists_exception(expression)
    }

    /// The address of the licenses of a version of the list; of the newest
    /// where no version is named.
    pub fn licenses_url(version: Option<&str>) -> (url: String)
        ensures
            url@ == file_address(version_or_newest(version), "licenses.json"@),
    {
        address_of(version, "licenses.json")
    }

    /// The address of the exceptions of a version of the list; of the newest
    /// where no version is named.
    pub fn exceptions_url(version: Option<&str>) -> (url: String)
        ensures
            url@ == file_address(version_or_newest(version), "exceptions.json"@),
    {
        address_of(version, "exceptions.json")
    }

    /// Takes the exceptions of `other` in place of its own, and keeps the rest.
    pub fn with_exceptions_of(self, other: LicenseList) -> (merged: LicenseList)
        ensures
            merged.exceptions == other.exceptions,
            merged.licenses == self.licenses,
            merged.license_list_version == self.license_list_version,
            merged.release_date == self.release_date,
    {
        let mut merged = self;
        merged.exceptions = other.exceptions;
        merged
    }

    /// Whether the list holds a license with this identifier.
    pub fn includes_license(&self, spdx_id: &str) -> (found: bool)
        ensures
            found == self.lists_license(spdx_id@),
    {
        let mut i: usize = 0;
        while i < self.licenses.len()
            invariant
                i <= self.licenses@.len(),
                forall|j: int| 0 <= j < i ==> (#[trigger] self.licenses@[j]).license_id@ != spdx_id@,
            decreases self.licenses@.len() - i,
        {
            if str_eq(self.licenses[i].license_id.as_str(), spdx_id) {
                return true;
            }
            i += 1;
        }
        false
    }

    /// Whether the list holds an exception with this identifier.
    pub fn includes_exception(&self, exception_id: &str) -> (found: bool)
        ensures
            found == self.lists_exception(exception_id@),
    {
        let mut i: usize = 0;
        while i < self.exceptions.len()
            invariant
                i <= self.exceptions@.len(),
                forall|j: int|
                    0 <= j < i ==> (#[trigger] self.exceptions@[j]).license_exception_id@
                        != exception_id@,
            decreases self.exceptions@.len() - i,
        {
            if str_eq(self.exceptions[i].license_exception_id.as_str(), exception_id) {
                return true;
            }
            i += 1;
        }
        false
    }

    /// Whether `expression` is a license of the list, an exception of the
    /// list, a reference to a license defined elsewhere (`LicenseRef-` or
    /// `DocumentRef-`), `NONE` or `NOASSERTION`. A license of the list is
    /// looked up without the plus signs of the expression.
    pub fn is_valid_license(&self, expression: &str) -> (valid: bool)
        ensures
            valid == self.accepts(expression@),
    {
        if str_eq(expression, "NOASSERTION") || str_eq(expression, "NONE") || str_starts_with(
            expression,
            "LicenseRef-",
        ) || str_starts_with(expression, "DocumentRef-") {
            return true;
        }
        let bare = str_replace(expression, '+', "");
        proof {
            reveal_strlit("");
            assert(""@ =~= Seq::<char>::empty());
            lemma_replaced_by_nothing(expression@, '+');
        }
        self.includes_license(bare.as_str()) || self.includes_exception(expression)
    }
}

} // verus!
