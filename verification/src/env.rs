//! Paths of the configuration, style and history files, derived from the
//! environment values the caller hands in: an explicit home-directory
//! override wins, then the XDG base directories, then fixed locations under
//! the user's home. Paths are UTF-8 byte strings; the caller turns them
//! into operating-system paths.

use vstd::prelude::*;

use crate::text::clone_bytes;

verus! {

/// The environment values the path rules read. `home` is the user's home
/// directory; the other three are the overrides, absent when unset.
pub struct EnvVars {
    pub home: Vec<u8>,
    pub waymenu_home: Option<Vec<u8>>,
    pub xdg_config_home: Option<Vec<u8>>,
    pub xdg_state_home: Option<Vec<u8>>,
}

/// The application name, `waymenu`, as path component.
pub open spec fn app_name_bytes() -> Seq<u8> {
    seq![119u8, 97u8, 121u8, 109u8, 101u8, 110u8, 117u8]
}

/// The path component `.config`.
pub open spec fn dot_config_bytes() -> Seq<u8> {
    seq![46u8, 99u8, 111u8, 110u8, 102u8, 105u8, 103u8]
}

/// The path component `.local/state`.
pub open spec fn local_state_bytes() -> Seq<u8> {
    seq![46u8, 108u8, 111u8, 99u8, 97u8, 108u8, 47u8, 115u8, 116u8, 97u8, 116u8, 101u8]
}

/// The file name `style.css`.
pub open spec fn style_css_bytes() -> Seq<u8> {
    seq![115u8, 116u8, 121u8, 108u8, 101u8, 46u8, 99u8, 115u8, 115u8]
}

/// The file name `config.jsonc`.
pub open spec fn config_jsonc_bytes() -> Seq<u8> {
    seq![99u8, 111u8, 110u8, 102u8, 105u8, 103u8, 46u8, 106u8, 115u8, 111u8, 110u8, 99u8]
}

/// The file name `history`.
pub open spec fn history_bytes() -> Seq<u8> {
    seq![104u8, 105u8, 115u8, 116u8, 111u8, 114u8, 121u8]
}

/// Joining a name onto a base path: a separator is added unless the base is
/// empty or already ends in one.
pub open spec fn spec_path_join(base: Seq<u8>, name: Seq<u8>) -> Seq<u8> {
    if base.len() == 0 {
        name
    } else if base.last() == 47 {
        base + name
    } else {
        base + seq![47u8] + name
    }
}

/// The configuration directory: the explicit override if set, else the XDG
/// configuration directory plus the application name, else `.config` under
/// the home directory plus the application name.
pub open spec fn spec_home_dir(env: EnvVars) -> Seq<u8> {
    match env.waymenu_home {
        Some(p) => p@,
        None => match env.xdg_config_home {
            Some(x) => spec_path_join(x@, app_name_bytes()),
            None => spec_path_join(
                spec_path_join(env.home@, dot_config_bytes()),
                app_name_bytes(),
            ),
        },
    }
}

/// The state directory: the explicit override if set, else the XDG state
/// directory plus the application name, else `.local/state` under the home
/// directory plus the application name.
pub open spec fn spec_state_dir(env: EnvVars) -> Seq<u8> {
    match env.waymenu_home {
        Some(p) => p@,
        None => match env.xdg_state_home {
            Some(x) => spec_path_join(x@, app_name_bytes()),
            None => spec_path_join(
                spec_path_join(env.home@, local_state_bytes()),
                app_name_bytes(),
            ),
        },
    }
}

/// Joins a name onto a base path.
pub fn path_join(base: &Vec<u8>, name: &Vec<u8>) -> (r: Vec<u8>)
    ensures
        r@ == spec_path_join(base@, name@),
{
    if base.len() == 0 {
        return clone_bytes(name);
    }
    let mut r = clone_bytes(base);
    if r[r.len() - 1] != 47 {
        r.push(47);
    }
    let mut i: usize = 0;
    let ghost mid = r@;
    while i < name.len()
        invariant
            i <= name.len(),
            r@ =~= mid + name@.take(i as int),
        decreases name.len() - i,
    {
        r.push(name[i]);
        i = i + 1;
        assert(r@ =~= mid + name@.take(i as int));
    }
    assert(name@.take(name@.len() as int) =~= name@);
    proof {
        if base@.last() == 47 {
            assert(r@ =~= base@ + name@);
        } else {
            assert(r@ =~= base@ + seq![47u8] + name@);
        }
    }
    r
}

fn app_name_vec() -> (r: Vec<u8>)
    ensures
        r@ == app_name_bytes(),
{
    let v: Vec<u8> = vec![119u8, 97u8, 121u8, 109u8, 101u8, 110u8, 117u8];
    assert(v@ =~= app_name_bytes());
    v
}

fn waymenu_home_dir(env: &EnvVars) -> (r: Vec<u8>)
    ensures
        r@ == spec_home_dir(*env),
{
    match &env.waymenu_home {
        Some(p) => clone_bytes(p),
        None => {
            let name = app_name_vec();
            match &env.xdg_config_home {
                Some(x) => path_join(x, &name),
                None => {
                    let dot_config: Vec<u8> = vec![
                        46u8,
                        99u8,
                        111u8,
                        110u8,
                        102u8,
                        105u8,
                        103u8,
                    ];
                    assert(dot_config@ =~= dot_config_bytes());
                    let base = path_join(&env.home, &dot_config);
                    path_join(&base, &name)
                },
            }
        },
    }
}

fn waymenu_state_dir(env: &EnvVars) -> (r: Vec<u8>)
    ensures
        r@ == spec_state_dir(*env),
{
    match &env.waymenu_home {
        Some(p) => clone_bytes(p),
        None => {
            let name = app_name_vec();
            match &env.xdg_state_home {
                Some(x) => path_join(x, &name),
                None => {
                    let local_state: Vec<u8> = vec![
                        46u8,
                        108u8,
                        111u8,
                        99u8,
                        97u8,
                        108u8,
                        47u8,
                        115u8,
                        116u8,
                        97u8,
                        116u8,
                        101u8,
                    ];
                    assert(local_state@ =~= local_state_bytes());
                    let base = path_join(&env.home, &local_state);
                    path_join(&base, &name)
                },
            }
        },
    }
}

/// The path of the stylesheet: `style.css` in the configuration directory.
pub fn get_css_path(env: &EnvVars) -> (r: Vec<u8>)
    ensures
        r@ == spec_path_join(spec_home_dir(*env), style_css_bytes()),
{
    let name: Vec<u8> = vec![115u8, 116u8, 121u8, 108u8, 101u8, 46u8, 99u8, 115u8, 115u8];
    assert(name@ =~= style_css_bytes());
    let base = waymenu_home_dir(env);
    path_join(&base, &name)
}

/// The path of the configuration file: `config.jsonc` in the configuration
/// directory.
pub fn get_config_path(env: &EnvVars) -> (r: Vec<u8>)
    ensures
        r@ == spec_path_join(spec_home_dir(*env), config_jsonc_bytes()),
{
    let name: Vec<u8> = vec![
        99u8,
        111u8,
        110u8,
        102u8,
        105u8,
        103u8,
        46u8,
        106u8,
        115u8,
        111u8,
        110u8,
        99u8,
    ];
    assert(name@ =~= config_jsonc_bytes());
    let base = waymenu_home_dir(env);
    path_join(&base, &name)
}

/// The path of the history file: `history` in the state directory.
pub fn get_history_path(env: &EnvVars) -> (r: Vec<u8>)
    ensures
        r@ == spec_path_join(spec_state_dir(*env), history_bytes()),
{
    let name: Vec<u8> = vec![104u8, 105u8, 115u8, 116u8, 111u8, 114u8, 121u8];
    assert(name@ =~= history_bytes());
    let base = waymenu_state_dir(env);
    path_join(&base, &name)
}

} // verus!
