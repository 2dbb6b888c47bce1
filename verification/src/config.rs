//! Connection profiles the shell persists for the bridge.
//!
//! The shell stores a document mapping profile names to connection settings,
//! plus the name of the currently selected profile, read and written
//! wholesale. The bridge's own obligation is only not to corrupt it: the
//! profile list keeps one entry per name. Serialization itself happens in
//! the unverified rim, on its own mirror of these types.

use vstd::prelude::*;

verus! {

use vstd::string::StrSliceExecFns;
use crate::marshal::bytes_equal;

/// One connection profile: the backend mode, the target and the port a
/// connection is started with.
#[derive(Debug, Clone, PartialEq, Eq)]
pub struct ConnectionProfile {
    pub mode: u8,
    pub target: String,
    pub port: u16,
}

/// The persisted document: named profiles and the selected profile's name.
#[derive(Debug)]
pub struct AppConfig {
    pub profiles: Vec<(String, ConnectionProfile)>,
    pub current_profile: Option<String>,
}

impl AppConfig {
    /// The profile names, in storage order.
    pub open spec fn names(self) -> Seq<Seq<char>> {
        Seq::new(self.profiles@.len(), |i: int| self.profiles@[i].0@)
    }

    /// One entry per name: the document stays a map.
    pub open spec fn wf(self) -> bool {
        forall|i: int, j: int|
            0 <= i < j < self.profiles@.len() ==> self.names()[i] != self.names()[j]
    }

    /// Whether a profile of the given name exists.
    pub open spec fn has_profile(self, name: Seq<char>) -> bool {
        exists|i: int| 0 <= i < self.profiles@.len() && self.profiles@[i].0@ == name
    }

    /// Look up the profile with the given name.
    pub fn profile_named(&self, name: &str) -> (r: Option<&ConnectionProfile>)
        ensures
            r is Some <==> self.has_profile(name@),
            r matches Some(p) ==> exists|i: int|
                0 <= i < self.profiles@.len() && self.profiles@[i].0@ == name@
                    && *p == self.profiles@[i].1,
    {
        let mut i: usize = 0;
        while i < self.profiles.len()
            invariant
                0 <= i <= self.profiles@.len(),
                forall|j: int| 0 <= j < i ==> self.profiles@[j].0@ != name@,
            decreases self.profiles@.len() - i,
        {
            if string_eq(&self.profiles[i].0, name) {
                return Some(&self.profiles[i].1);
            }
            i = i + 1;
        }
        None
    }
}

/// Whether a stored string holds the same characters as a given one. Two
/// strings are equal exactly when their UTF-8 encodings are.
fn string_eq(a: &String, b: &str) -> (r: bool)
    ensures
        r == (a@ == b@),
{
    let av = a.as_str().as_bytes_vec();
    let bv = b.as_bytes_vec();
    let r = bytes_equal(&av, &bv);
    proof {
        vstd::utf8::encode_utf8_decode_utf8(a@);
        vstd::utf8::encode_utf8_decode_utf8(b@);
    }
    r
}

impl Default for AppConfig {
    /// The empty document: no profiles, nothing selected.
    fn default() -> (r: AppConfig)
        ensures
            r.profiles@.len() == 0,
            r.current_profile is None,
            r.wf(),
    {
        AppConfig { profiles: Vec::new(), current_profile: None }
    }
}

} // verus!
