//! Where dotrift reads and writes outside the source tree, resolved from the
//! XDG base directories, or pinned below one root for tests.

use vstd::prelude::*;

use crate::paths::{join_path, path_join};
use crate::collision::{normalize, normalized};
use crate::targets::{components_of, path_components, is_proper_prefix, chars_view, comps_eq, comps_proper_prefix};
use crate::text::push_char;

verus! {

/// `$XDG_STATE_HOME`, or its fallback below the home directory.
#[verifier::external_body]
fn xdg_state_home() -> (res: Option<String>)
{
    dirs::state_dir().and_then(|p| p.to_str().map(|s| s.to_string()))
}

/// `$XDG_DATA_HOME`, or its fallback below the home directory.
#[verifier::external_body]
fn xdg_data_home() -> (res: Option<String>)
{
    dirs::data_dir().and_then(|p| p.to_str().map(|s| s.to_string()))
}

/// `$XDG_CONFIG_HOME`, or its fallback below the home directory.
#[verifier::external_body]
fn xdg_config_home() -> (res: Option<String>)
{
    dirs::config_dir().and_then(|p| p.to_str().map(|s| s.to_string()))
}

/// The home directory.
#[verifier::external_body]
fn home_directory() -> (res: Option<String>)
{
    dirs::home_dir().and_then(|p| p.to_str().map(|s| s.to_string()))
}

/// Which location could not be resolved.
#[derive(Debug, Clone, Copy, PartialEq, Eq, Structural)]
pub enum EnvError {
    /// Neither a state home nor a data home is known.
    StateUnset,
    /// No config home is known.
    ConfigHomeUnset,
    /// No data home is known for the default source directory.
    SourceUnset,
    /// No home directory is known.
    HomeUnset,
}

/// The state directory: `<state home>/dotrift`, falling back to
/// `<data home>/dotrift`.
pub fn state_dir_from(state_home: Option<String>, data_home: Option<String>) -> (res: Result<String, EnvError>)
    ensures
        state_home matches Some(h) ==> (res matches Ok(p) && p@ == path_join(h@, "dotrift"@)),
        state_home is None ==> (data_home matches Some(h) ==> (res matches Ok(p) && p@ == path_join(h@, "dotrift"@))),
        state_home is None && data_home is None ==> res == Err::<String, EnvError>(EnvError::StateUnset),
{
    match state_home {
        Some(h) => Ok(join_path(h.as_str(), "dotrift")),
        None => match data_home {
            Some(h) => Ok(join_path(h.as_str(), "dotrift")),
            None => Err(EnvError::StateUnset),
        },
    }
}

/// The global config file: `<config home>/dotrift/config.toml`.
pub fn global_config_path_from(config_home: Option<String>) -> (res: Result<String, EnvError>)
    ensures
        config_home matches Some(h) ==> (res matches Ok(p) && p@ == path_join(path_join(h@, "dotrift"@), "config.toml"@)),
        config_home is None ==> res == Err::<String, EnvError>(EnvError::ConfigHomeUnset),
{
    match config_home {
        Some(h) => {
            let d = join_path(h.as_str(), "dotrift");
            Ok(join_path(d.as_str(), "config.toml"))
        },
        None => Err(EnvError::ConfigHomeUnset),
    }
}

/// The default source directory: `<data home>/dotfiles`.
pub fn default_source_dir_from(data_home: Option<String>) -> (res: Result<String, EnvError>)
    ensures
        data_home matches Some(h) ==> (res matches Ok(p) && p@ == path_join(h@, "dotfiles"@)),
        data_home is None ==> res == Err::<String, EnvError>(EnvError::SourceUnset),
{
    match data_home {
        Some(h) => Ok(join_path(h.as_str(), "dotfiles")),
        None => Err(EnvError::SourceUnset),
    }
}

/// The default target directory: the home directory `home`.
pub fn target_dir_from(home: Option<String>) -> (res: Result<String, EnvError>)
    ensures
        home matches Some(h) ==> (res matches Ok(p) && p@ == h@),
        home is None ==> res == Err::<String, EnvError>(EnvError::HomeUnset),
{
    match home {
        Some(h) => Ok(h),
        None => Err(EnvError::HomeUnset),
    }
}

/// The per-run template render registry directory below the temporary
/// directory `temp_dir`: `<temp>/dotrift-render/registry`.
pub open spec fn default_registry_dir(temp_dir: Seq<char>) -> Seq<char> {
    path_join(path_join(temp_dir, "dotrift-render"@), "registry"@)
}

/// Where dotrift reads and writes outside the source tree. A location that
/// is not pinned resolves from the process environment when it is asked
/// for, so only the locations a command needs can fail it.
#[derive(Debug, Clone)]
pub struct Environment {
    state_dir: Option<String>,
    registry_dir: Option<String>,
    global_config_path: Option<String>,
    default_source_dir: Option<String>,
    default_target_dir: Option<String>,
}

impl Environment {
    pub closed spec fn pinned_state_dir(self) -> Option<Seq<char>> {
        match self.state_dir {
            Some(p) => Some(p@),
            None => None,
        }
    }

    pub closed spec fn pinned_registry_dir(self) -> Option<Seq<char>> {
        match self.registry_dir {
            Some(p) => Some(p@),
            None => None,
        }
    }

    pub closed spec fn pinned_global_config_path(self) -> Option<Seq<char>> {
        match self.global_config_path {
            Some(p) => Some(p@),
            None => None,
        }
    }

    pub closed spec fn pinned_default_source_dir(self) -> Option<Seq<char>> {
        match self.default_source_dir {
            Some(p) => Some(p@),
            None => None,
        }
    }

    pub closed spec fn pinned_default_target_dir(self) -> Option<Seq<char>> {
        match self.default_target_dir {
            Some(p) => Some(p@),
            None => None,
        }
    }

    /// Resolves every location from the process environment on access.
    pub fn resolve() -> (res: Environment)
        ensures
            res.pinned_state_dir() is None,
            res.pinned_registry_dir() is None,
            res.pinned_global_config_path() is None,
            res.pinned_default_source_dir() is None,
            res.pinned_default_target_dir() is None,
    {
        Environment {
            state_dir: None,
            registry_dir: None,
            global_config_path: None,
            default_source_dir: None,
            default_target_dir: None,
        }
    }

    /// A hermetic environment rooted at `root`: `<root>/state`,
    /// `<root>/render-registry/registry` and
    /// `<root>/config-home/dotrift/config.toml`. The default source and
    /// target directories still resolve from the process environment.
    pub fn test_root(root: &str) -> (res: Environment)
        ensures
            res.pinned_state_dir() == Some(path_join(root@, "state"@)),
            res.pinned_registry_dir() == Some(path_join(path_join(root@, "render-registry"@), "registry"@)),
            res.pinned_global_config_path() == Some(
                path_join(path_join(path_join(root@, "config-home"@), "dotrift"@), "config.toml"@),
            ),
            res.pinned_default_source_dir() is None,
            res.pinned_default_target_dir() is None,
    {
        let state = join_path(root, "state");
        let reg = join_path(root, "render-registry");
        let registry = join_path(reg.as_str(), "registry");
        let home = join_path(root, "config-home");
        let dot = join_path(home.as_str(), "dotrift");
        let config = join_path(dot.as_str(), "config.toml");
        Environment {
            state_dir: Some(state),
            registry_dir: Some(registry),
            global_config_path: Some(config),
            default_source_dir: None,
            default_target_dir: None,
        }
    }

    /// Pins the template render registry directory to `dir`.
    pub fn with_registry_dir(self, dir: String) -> (res: Environment)
        ensures
            res.pinned_registry_dir() == Some(dir@),
            res.pinned_state_dir() == self.pinned_state_dir(),
            res.pinned_global_config_path() == self.pinned_global_config_path(),
            res.pinned_default_source_dir() == self.pinned_default_source_dir(),
            res.pinned_default_target_dir() == self.pinned_default_target_dir(),
    {
        let mut env = self;
        env.registry_dir = Some(dir);
        env
    }

    /// The state directory holding the database and the lock. When not
    /// pinned it is found as [`state_dir_from`] says, from the XDG state
    /// and data homes of the process environment.
    pub fn state_dir(&self) -> (res: Result<String, EnvError>)
        ensures
            self.pinned_state_dir() matches Some(p) ==> (res matches Ok(q) && q@ == p),
            self.pinned_state_dir() is None ==> (res matches Err(e) ==> e == EnvError::StateUnset),
            self.pinned_state_dir() is None ==> (res matches Ok(q) ==> exists|h: Seq<char>|
                q@ == path_join(h, "dotrift"@)),
    {
        match &self.state_dir {
            Some(p) => Ok(p.clone()),
            None => state_dir_from(xdg_state_home(), xdg_data_home()),
        }
    }

    /// The template render registry directory; when not pinned, the one
    /// below the temporary directory `temp_dir`.
    pub fn registry_dir(&self, temp_dir: &str) -> (res: String)
        ensures
            res@ == match self.pinned_registry_dir() {
                Some(p) => p,
                None => default_registry_dir(temp_dir@),
            },
    {
        match &self.registry_dir {
            Some(p) => p.clone(),
            None => {
                let d = join_path(temp_dir, "dotrift-render");
                join_path(d.as_str(), "registry")
            },
        }
    }

    /// The global config file. When not pinned it is found as
    /// [`global_config_path_from`] says, from the XDG config home.
    pub fn global_config_path(&self) -> (res: Result<String, EnvError>)
        ensures
            self.pinned_global_config_path() matches Some(p) ==> (res matches Ok(q) && q@ == p),
            self.pinned_global_config_path() is None ==> (res matches Err(e) ==> e == EnvError::ConfigHomeUnset),
            self.pinned_global_config_path() is None ==> (res matches Ok(q) ==> exists|h: Seq<char>|
                q@ == path_join(path_join(h, "dotrift"@), "config.toml"@)),
    {
        match &self.global_config_path {
            Some(p) => Ok(p.clone()),
            None => global_config_path_from(xdg_config_home()),
        }
    }

    /// The default source directory. When not pinned it is found as
    /// [`default_source_dir_from`] says, from the XDG data home.
    pub fn default_source_dir(&self) -> (res: Result<String, EnvError>)
        ensures
            self.pinned_default_source_dir() matches Some(p) ==> (res matches Ok(q) && q@ == p),
            self.pinned_default_source_dir() is None ==> (res matches Err(e) ==> e == EnvError::SourceUnset),
            self.pinned_default_source_dir() is None ==> (res matches Ok(q) ==> exists|h: Seq<char>|
                q@ == path_join(h, "dotfiles"@)),
    {
        match &self.default_source_dir {
            Some(p) => Ok(p.clone()),
            None => default_source_dir_from(xdg_data_home()),
        }
    }

    /// The default target directory: the home directory unless pinned.
    /// When not pinned it is found as [`target_dir_from`] says, from the
    /// home directory of the process environment.
    pub fn default_target_dir(&self) -> (res: Result<String, EnvError>)
        ensures
            self.pinned_default_target_dir() matches Some(p) ==> (res matches Ok(q) && q@ == p),
            self.pinned_default_target_dir() is None ==> (res matches Err(e) ==> e == EnvError::HomeUnset),
    {
        match &self.default_target_dir {
            Some(p) => Ok(p.clone()),
            None => target_dir_from(home_directory()),
        }
    }
}

impl Default for Environment {
    /// The same as [`Environment::resolve`].
    fn default() -> (res: Environment)
        ensures
            res.pinned_state_dir() is None,
            res.pinned_registry_dir() is None,
            res.pinned_global_config_path() is None,
            res.pinned_default_source_dir() is None,
            res.pinned_default_target_dir() is None,
    {
        Environment::resolve()
    }
}


/// `~` followed by `/` and each of `rest` in turn: what pushing the
/// components onto the path `~` gives.
pub open spec fn tilde_text(rest: Seq<Seq<char>>) -> Seq<char>
    decreases rest.len(),
{
    if rest.len() == 0 {
        seq!['~']
    } else {
        tilde_text(rest.drop_last()) + seq!['/'] + rest.last()
    }
}

/// `path` shown relative to `home`: a path inside `home` (component-wise),
/// or `home` itself, becomes `~` followed by the rest of its components;
/// another path, or any path when no home is known, stays.
pub open spec fn prettified(path: Seq<char>, home: Option<Seq<char>>) -> Seq<char> {
    match home {
        None => path,
        Some(h) => {
            let pc = path_components(path);
            let hc = path_components(h);
            if hc == pc || is_proper_prefix(hc, pc) {
                tilde_text(pc.skip(hc.len() as int))
            } else {
                path
            }
        },
    }
}

/// What [`prettify_below`] gives for `path` with the home directory `home`.
pub open spec fn prettified_below(path: Seq<char>, home: Option<Seq<char>>) -> Seq<char> {
    prettified(
        normalized(path),
        match home {
            Some(h) => Some(normalized(h)),
            None => None,
        },
    )
}

/// `path`, normalized, and shortened to start with `~` when it lies in the
/// normalized home directory `home`.
pub fn prettify_below(path: &str, home: Option<&str>) -> (res: String)
    ensures
        res@ == prettified_below(path@, match home {
            Some(h) => Some(h@),
            None => None,
        }),
{
    let p = normalize(path);
    let h = match home {
        None => {
            return p;
        },
        Some(h) => normalize(h),
    };
    let pc = components_of(p.as_str());
    let hc = components_of(h.as_str());
    let ghost pv = path_components(p@);
    let ghost hv = path_components(h@);
    proof {
        assert(chars_view(pc@) =~= pv);
        assert(chars_view(hc@) =~= hv);
    }
    if !(comps_eq(&hc, &pc) || comps_proper_prefix(&hc, &pc)) {
        return p;
    }
    let mut out = String::new();
    push_char(&mut out, '~');
    let start = hc.len();
    let mut k: usize = start;
    proof {
        assert(pv.skip(start as int).subrange(0, 0) =~= Seq::<Seq<char>>::empty());
    }
    while k < pc.len()
        invariant
            start <= k <= pc@.len(),
            start == hv.len(),
            hv.len() <= pv.len(),
            pv == path_components(p@),
            pc@.len() == pv.len(),
            forall|j: int| 0 <= j < pc@.len() ==> #[trigger] pc@[j]@ == pv[j],
            out@ == tilde_text(pv.subrange(start as int, k as int)),
        decreases pc.len() - k,
    {
        push_char(&mut out, '/');
        let part = crate::text::string_of(&pc[k]);
        out.append(part.as_str());
        proof {
            let s = pv.subrange(start as int, k + 1);
            assert(s.drop_last() =~= pv.subrange(start as int, k as int));
            assert(s.last() == pv[k as int]);
        }
        k += 1;
    }
    proof {
        assert(pv.subrange(start as int, pv.len() as int) =~= pv.skip(start as int));
    }
    out
}

/// `path`, normalized, and shortened to start with `~` when it lies in the
/// home directory; the home directory comes from the process environment.
pub fn prettify_path(path: &str) -> (res: String)
    ensures
        exists|home: Option<Seq<char>>| res@ == #[trigger] prettified_below(path@, home),
{
    let home = home_directory();
    match home {
        Some(h) => {
            let r = prettify_below(path, Some(h.as_str()));
            proof {
                assert(r@ == prettified_below(path@, Some(h@)));
            }
            r
        },
        None => {
            let r = prettify_below(path, None);
            proof {
                assert(r@ == prettified_below(path@, None));
            }
            r
        },
    }
}
} // verus!
