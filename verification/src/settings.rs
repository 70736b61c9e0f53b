//! Process-wide settings: where the server listens, which API endpoint
//! clients call, and the storage profiles configured on the device.
//! Loading them — the merge of a settings file with environment
//! overrides — is I/O and lives in the shell; the library holds the
//! merged values.

use vstd::prelude::*;

use crate::types::string_eq;

verus! {

/// The merged settings, as plain values. Profiles are an association
/// list from profile name to its key-value pairs, in file order.
pub struct Settings {
    /// The address to listen on.
    pub server_hostname: String,
    /// API endpoint for the server.
    pub api_endpoint: String,
    /// Configured storage backends available on device.
    pub profiles: Vec<(String, Vec<(String, String)>)>,
}

impl Default for Settings {
    /// The stock settings: local hostname and endpoint, no profiles.
    fn default() -> (s: Settings)
        ensures
            s.server_hostname@ == "http://127.0.0.1:80"@,
            s.api_endpoint@ == "http://127.0.0.1:8080"@,
            s.profiles@.len() == 0,
    {
        Settings {
            server_hostname: String::from_str("http://127.0.0.1:80"),
            api_endpoint: String::from_str("http://127.0.0.1:8080"),
            profiles: Vec::new(),
        }
    }
}

/// What looking a profile up by name means: the first entry carrying it.
pub open spec fn profile_lookup(
    s: Seq<(Seq<char>, Seq<(Seq<char>, Seq<char>)>)>,
    name: Seq<char>,
) -> Option<Seq<(Seq<char>, Seq<char>)>>
    decreases s.len(),
{
    if s.len() == 0 {
        None
    } else if s[0].0 == name {
        Some(s[0].1)
    } else {
        profile_lookup(s.drop_first(), name)
    }
}

/// Ghost image of the profile table.
pub open spec fn profiles_view(
    s: Seq<(String, Vec<(String, String)>)>,
) -> Seq<(Seq<char>, Seq<(Seq<char>, Seq<char>)>)> {
    s.map_values(
        |p: (String, Vec<(String, String)>)|
            (p.0@, p.1@.map_values(|q: (String, String)| (q.0@, q.1@))),
    )
}

impl Settings {
    /// The key-value pairs of the named profile, if the device has it.
    pub fn get_profile(&self, name: &String) -> (r: Option<&Vec<(String, String)>>)
        ensures
            match r {
                Some(p) => profile_lookup(profiles_view(self.profiles@), name@) == Some(
                    p@.map_values(|q: (String, String)| (q.0@, q.1@)),
                ),
                None => profile_lookup(profiles_view(self.profiles@), name@) is None,
            },
    {
        proof {
            assert(profiles_view(self.profiles@).skip(0) =~= profiles_view(self.profiles@));
        }
        let mut i: usize = 0;
        while i < self.profiles.len()
            invariant
                i <= self.profiles.len(),
                self.profiles@.len() == profiles_view(self.profiles@).len(),
                profile_lookup(profiles_view(self.profiles@), name@) == profile_lookup(
                    profiles_view(self.profiles@).skip(i as int),
                    name@,
                ),
            decreases self.profiles.len() - i,
        {
            proof {
                assert(profiles_view(self.profiles@).skip(i as int)[0] == profiles_view(
                    self.profiles@,
                )[i as int]);
                assert(profiles_view(self.profiles@).skip(i as int).drop_first()
                    =~= profiles_view(self.profiles@).skip(i as int + 1));
            }
            if string_eq(&self.profiles[i].0, name) {
                return Some(&self.profiles[i].1);
            }
            i = i + 1;
        }
        proof {
            assert(profiles_view(self.profiles@).skip(i as int).len() == 0);
        }
        None
    }
}

} // verus!
