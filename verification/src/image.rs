//! Bytecode container images: the request descriptor clients send, the
//! metadata labels an image carries, and the pull-policy decision.

use vstd::prelude::*;
use vstd::string::*;
use crate::types::ImagePullPolicy;
use crate::types::ParseError;

verus! {

/// Request for bytecode packaged in an OCI container image.
#[derive(Debug)]
pub struct BytecodeImage {
    pub image_url: String,
    pub image_pull_policy: ImagePullPolicy,
    pub username: Option<String>,
    pub password: Option<String>,
}

impl Clone for BytecodeImage {
    fn clone(&self) -> (r: Self)
        ensures
            r.image_url@ == self.image_url@,
            r.image_pull_policy == self.image_pull_policy,
            opt_string_view(&r.username) == opt_string_view(&self.username),
            opt_string_view(&r.password) == opt_string_view(&self.password),
    {
        BytecodeImage {
            image_url: self.image_url.clone(),
            image_pull_policy: self.image_pull_policy,
            username: clone_opt_string(&self.username),
            password: clone_opt_string(&self.password),
        }
    }
}

/// View of an optional string as an optional character sequence.
pub open spec fn opt_string_view(o: &Option<String>) -> Option<Seq<char>> {
    match o {
        Some(s) => Some(s@),
        None => None,
    }
}

/// Clone of an optional string, preserving its view.
pub fn clone_opt_string(o: &Option<String>) -> (r: Option<String>)
    ensures
        opt_string_view(&r) == opt_string_view(o),
{
    match o {
        Some(s) => Some(s.clone()),
        None => None,
    }
}

impl BytecodeImage {
    /// Image request from wire fields; the policy integer must be one the
    /// wire defines, as the daemon rejects such requests before this point.
    pub fn new(
        image_url: String,
        image_pull_policy: i32,
        username: Option<String>,
        password: Option<String>,
    ) -> (r: Self)
        requires
            0 <= image_pull_policy <= 2,
        ensures
            r.image_url@ == image_url@,
            image_pull_policy == 0 ==> r.image_pull_policy == ImagePullPolicy::Always,
            image_pull_policy == 1 ==> r.image_pull_policy == ImagePullPolicy::IfNotPresent,
            image_pull_policy == 2 ==> r.image_pull_policy == ImagePullPolicy::Never,
            r.username == username,
            r.password == password,
    {
        let policy = match ImagePullPolicy::try_from_int(image_pull_policy) {
            Ok(p) => p,
            Err(_) => ImagePullPolicy::IfNotPresent,
        };
        BytecodeImage { image_url, image_pull_policy: policy, username, password }
    }

    pub fn get_url(&self) -> (r: &String)
        ensures
            r@ == self.image_url@,
    {
        &self.image_url
    }

    pub fn get_pull_policy(&self) -> (r: &ImagePullPolicy)
        ensures
            *r == self.image_pull_policy,
    {
        &self.image_pull_policy
    }

    /// Image request from the wire shape, where credentials may arrive as
    /// empty strings meaning "none".
    pub fn from_request(
        url: String,
        image_pull_policy: i32,
        username: Option<String>,
        password: Option<String>,
    ) -> (r: Self)
        requires
            0 <= image_pull_policy <= 2,
        ensures
            r.image_url@ == url@,
            image_pull_policy == 0 ==> r.image_pull_policy == ImagePullPolicy::Always,
            image_pull_policy == 1 ==> r.image_pull_policy == ImagePullPolicy::IfNotPresent,
            image_pull_policy == 2 ==> r.image_pull_policy == ImagePullPolicy::Never,
            opt_string_view(&r.username) == nonempty_opt(opt_string_view(&username)),
            opt_string_view(&r.password) == nonempty_opt(opt_string_view(&password)),
    {
        let u = match username {
            Some(s) => {
                if s.as_str().unicode_len() == 0 {
                    None
                } else {
                    Some(s)
                }
            },
            None => None,
        };
        let p = match password {
            Some(s) => {
                if s.as_str().unicode_len() == 0 {
                    None
                } else {
                    Some(s)
                }
            },
            None => None,
        };
        BytecodeImage::new(url, image_pull_policy, u, p)
    }
}

/// An optional string with the empty string demoted to nothing.
pub open spec fn nonempty_opt(o: Option<Seq<char>>) -> Option<Seq<char>> {
    match o {
        Some(s) => if s.len() == 0 {
            None
        } else {
            Some(s)
        },
        None => None,
    }
}

/// Labels a bytecode image carries describing the program inside it.
#[derive(Debug)]
pub struct ContainerImageMetadata {
    pub name: String,
    pub bpf_function_name: String,
    pub program_type: String,
    pub filename: String,
}

impl Default for ContainerImageMetadata {
    fn default() -> (r: Self)
        ensures
            r.name@ == Seq::<char>::empty(),
            r.bpf_function_name@ == Seq::<char>::empty(),
            r.program_type@ == Seq::<char>::empty(),
            r.filename@ == Seq::<char>::empty(),
    {
        ContainerImageMetadata {
            name: String::new(),
            bpf_function_name: String::new(),
            program_type: String::new(),
            filename: String::new(),
        }
    }
}

/// What the pull policy asks for, given whether the image is already cached.
pub enum PullAction {
    /// Fetch from the registry.
    PullFromRegistry,
    /// Serve the cached copy.
    UseCached,
    /// Refuse: the policy forbids pulling and nothing is cached.
    Fail,
}

/// Decision table of the pull policy: `Always` pulls, `IfNotPresent` pulls
/// only when the cache misses, `Never` serves the cache or fails.
pub open spec fn spec_pull_action(policy: ImagePullPolicy, exists_in_cache: bool) -> PullAction {
    match policy {
        ImagePullPolicy::Always => PullAction::PullFromRegistry,
        ImagePullPolicy::IfNotPresent => if exists_in_cache {
            PullAction::UseCached
        } else {
            PullAction::PullFromRegistry
        },
        ImagePullPolicy::Never => if exists_in_cache {
            PullAction::UseCached
        } else {
            PullAction::Fail
        },
    }
}

/// Decides how to satisfy a pull request, from the policy and whether the
/// image's manifest is already in the cache.
pub fn pull_action(policy: ImagePullPolicy, exists_in_cache: bool) -> (r: PullAction)
    ensures
        r == spec_pull_action(policy, exists_in_cache),
{
    match policy {
        ImagePullPolicy::Always => PullAction::PullFromRegistry,
        ImagePullPolicy::IfNotPresent => {
            if exists_in_cache {
                PullAction::UseCached
            } else {
                PullAction::PullFromRegistry
            }
        },
        ImagePullPolicy::Never => {
            if exists_in_cache {
                PullAction::UseCached
            } else {
                PullAction::Fail
            }
        },
    }
}

/// Registry credentials attached to a pull.
pub enum RegistryAuth {
    Basic(String, String),
    Anonymous,
}

/// Basic auth when both a user name and a password were supplied, anonymous
/// otherwise.
pub fn get_auth_for_registry(username: &Option<String>, password: &Option<String>) -> (r:
    RegistryAuth)
    ensures
        (username is Some && password is Some) <==> r is Basic,
        r matches RegistryAuth::Basic(u, p) ==> u@ == username->0@ && p@ == password->0@,
{
    match (username, password) {
        (Some(u), Some(p)) => RegistryAuth::Basic(u.clone(), p.clone()),
        _ => RegistryAuth::Anonymous,
    }
}

} // verus!
