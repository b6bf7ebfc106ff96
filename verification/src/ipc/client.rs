//! Requests on Hyprland's command socket, and what their responses say.
use crate::models::{HyprClient, HyprMonitor};
use crate::paths::{join_path, joined_path};
use crate::text::{
    after_prefix, contains, lines, occurs, str_eq, strip_prefix, text_lines, trim, trim_matches,
    trim_start_matches, trimmed, views, without_leading, without_marks,
};
use std::collections::HashMap;
use vstd::prelude::*;
use vstd::std_specs::hash::obeys_key_model;
use vstd::string::StringExecFns;

verus! {

/// Resolved Hyprland socket paths for a running instance.
#[derive(Debug)]
pub struct HyprSocketPaths {
    /// The socket that takes requests.
    pub socket1: String,
    /// The socket that reports events.
    pub socket2: String,
}

impl Clone for HyprSocketPaths {
    fn clone(&self) -> (r: Self)
        ensures
            r == *self,
    {
        HyprSocketPaths { socket1: self.socket1.clone(), socket2: self.socket2.clone() }
    }
}

/// No Hyprland instance is known.
#[derive(Debug, Clone, Copy, PartialEq, Eq, Structural)]
pub struct NoInstance;

impl NoInstance {
    pub fn to_string(&self) -> (r: String)
        ensures
            r@ == "HYPRLAND_INSTANCE_SIGNATURE not set — is Hyprland running?"@,
    {
        "HYPRLAND_INSTANCE_SIGNATURE not set — is Hyprland running?".to_owned()
    }
}

/// The directory of an instance's sockets.
pub open spec fn instance_dir(signature: Seq<char>, runtime_dir: Option<Seq<char>>) -> Seq<char> {
    let runtime = match runtime_dir {
        Some(dir) => dir,
        None => "/run/user/1000"@,
    };
    joined_path(joined_path(runtime, "hypr"@), signature)
}

pub open spec fn opt_view(o: Option<&str>) -> Option<Seq<char>> {
    match o {
        Some(s) => Some(s@),
        None => None,
    }
}

impl HyprSocketPaths {
    pub fn new(socket1: String, socket2: String) -> (r: Self)
        ensures
            r == (HyprSocketPaths { socket1, socket2 }),
    {
        HyprSocketPaths { socket1, socket2 }
    }

    /// The sockets of the instance that the environment names: its signature
    /// (`HYPRLAND_INSTANCE_SIGNATURE`) and the runtime directory
    /// (`XDG_RUNTIME_DIR`), where they are set.
    pub fn from_env(signature: Option<&str>, runtime_dir: Option<&str>) -> (r: Result<
        Self,
        NoInstance,
    >)
        ensures
            r is Ok <==> signature is Some,
            r matches Ok(paths) ==> {
                let dir = instance_dir(signature->0@, opt_view(runtime_dir));
                &&& paths.socket1@ == joined_path(dir, ".socket.sock"@)
                &&& paths.socket2@ == joined_path(dir, ".socket2.sock"@)
                &&& (paths.socket1@, paths.socket2@) == sockets_in(dir)
            },
    {
        match signature {
            Some(his) => {
                let runtime = match runtime_dir {
                    Some(dir) => dir,
                    None => "/run/user/1000",
                };
                let hypr = join_path(runtime, "hypr");
                let dir = join_path(hypr.as_str(), his);
                Ok(
                    HyprSocketPaths {
                        socket1: join_path(dir.as_str(), ".socket.sock"),
                        socket2: join_path(dir.as_str(), ".socket2.sock"),
                    },
                )
            },
            None => Err(NoInstance),
        }
    }
}

/// The two sockets in an instance's directory: for requests and for events.
pub open spec fn sockets_in(dir: Seq<char>) -> (Seq<char>, Seq<char>) {
    (joined_path(dir, ".socket.sock"@), joined_path(dir, ".socket2.sock"@))
}

/// A `getoption` response reports an integer option as set.
pub open spec fn is_switched_on(response: Seq<char>) -> bool {
    occurs(response, "int: 1"@)
}

/// The client has the address, with or without a `0x` on either.
pub open spec fn has_address(c: HyprClient, address: Seq<char>) -> bool {
    without_leading(c.address@, "0x"@) == without_leading(address, "0x"@)
}

/// The first client from `k` on that has the address.
pub open spec fn client_from(clients: Seq<HyprClient>, address: Seq<char>, k: int) -> Option<
    HyprClient,
>
    decreases clients.len() - k,
{
    if k < 0 || k >= clients.len() {
        None
    } else if has_address(clients[k], address) {
        Some(clients[k])
    } else {
        client_from(clients, address, k + 1)
    }
}

/// The monitors' names by id. Of two with the same id the later one counts.
pub open spec fn monitor_names(monitors: Seq<HyprMonitor>) -> Map<i64, Seq<char>>
    decreases monitors.len(),
{
    if monitors.len() == 0 {
        Map::empty()
    } else {
        monitor_names(monitors.drop_last()).insert(monitors.last().id, monitors.last().name@)
    }
}

/// What the option's first string value is, in the response's lines from `k`
/// on.
pub open spec fn str_value_from(response: Seq<Seq<char>>, k: int) -> Option<Seq<char>>
    decreases response.len() - k,
{
    if k < 0 || k >= response.len() {
        None
    } else {
        match after_prefix(response[k], "str: "@) {
            Some(value) => Some(without_marks(trimmed(value), '"')),
            None => str_value_from(response, k + 1),
        }
    }
}

/// The string value that a `getoption` response reports.
pub open spec fn str_value(response: Seq<char>) -> Option<Seq<char>> {
    str_value_from(text_lines(response), 0)
}

/// Single IPC handle to a Hyprland instance. Create once, pass by reference.
#[derive(Debug)]
pub struct HyprCtl {
    paths: HyprSocketPaths,
}

impl HyprCtl {
    pub closed spec fn spec_paths(&self) -> HyprSocketPaths {
        self.paths
    }

    pub fn new(paths: HyprSocketPaths) -> (r: Self)
        ensures
            r.spec_paths() == paths,
    {
        HyprCtl { paths }
    }

    pub fn from_env(signature: Option<&str>, runtime_dir: Option<&str>) -> (r: Result<
        Self,
        NoInstance,
    >)
        ensures
            r is Ok <==> signature is Some,
            r matches Ok(ctl) ==> {
                let dir = instance_dir(signature->0@, opt_view(runtime_dir));
                &&& ctl.spec_paths().socket1@ == joined_path(dir, ".socket.sock"@)
                &&& ctl.spec_paths().socket2@ == joined_path(dir, ".socket2.sock"@)
                &&& (ctl.spec_paths().socket1@, ctl.spec_paths().socket2@) == sockets_in(dir)
            },
    {
        match HyprSocketPaths::from_env(signature, runtime_dir) {
            Ok(paths) => Ok(HyprCtl { paths }),
            Err(e) => Err(e),
        }
    }

    pub fn socket_paths(&self) -> (r: &HyprSocketPaths)
        ensures
            *r == self.spec_paths(),
    {
        &self.paths
    }

    /// The request for a report in JSON.
    pub fn json(command: &str) -> (r: String)
        ensures
            r@ == "j/"@ + command@,
    {
        let mut s = "j/".to_owned();
        s.append(command);
        s
    }

    /// The request for the live clients.
    pub fn get_clients() -> (r: String)
        ensures
            r@ == "j/"@ + "clients"@,
    {
        Self::json("clients")
    }

    /// The request for the connected monitors.
    pub fn get_monitors() -> (r: String)
        ensures
            r@ == "j/"@ + "monitors"@,
    {
        Self::json("monitors")
    }

    /// The request that runs a dispatcher.
    pub fn dispatch(args: &str) -> (r: String)
        ensures
            r@ == "dispatch "@ + args@,
    {
        let mut s = "dispatch ".to_owned();
        s.append(args);
        s
    }

    /// The request that sets a keyword.
    pub fn keyword(args: &str) -> (r: String)
        ensures
            r@ == "keyword "@ + args@,
    {
        let mut s = "keyword ".to_owned();
        s.append(args);
        s
    }

    /// The request for an option's value.
    pub fn option_request(name: &str) -> (r: String)
        ensures
            r@ == "getoption "@ + name@,
    {
        let mut s = "getoption ".to_owned();
        s.append(name);
        s
    }

    /// Whether a `getoption` response reports an integer option as set.
    pub fn get_option(response: &str) -> (r: bool)
        ensures
            r == occurs(response@, "int: 1"@),
            r == is_switched_on(response@),
    {
        contains(response, "int: 1")
    }

    /// The string value in a `getoption` response, or what is missing from it.
    pub fn get_option_str(response: &str, name: &str) -> (r: Result<String, String>)
        ensures
            match r {
                Ok(value) => str_value(response@) == Some(value@),
                Err(message) => str_value(response@) is None && message@
                    == "no str value in getoption response for "@ + name@,
            },
    {
        let rows = lines(response);
        let ghost all = text_lines(response@);
        for k in 0..rows.len()
            invariant
                views(rows@) == all,
                all == text_lines(response@),
                str_value(response@) == str_value_from(all, k as int),
        {
            assert(all[k as int] == rows@[k as int]@);
            match strip_prefix(rows[k], "str: ") {
                Some(value) => {
                    return Ok(trim_matches(trim(value), '"').to_owned());
                },
                None => {},
            }
        }
        let mut message = "no str value in getoption response for ".to_owned();
        message.append(name);
        Err(message)
    }

    /// The active tiling layout (e.g. "dwindle", "master") in the response to
    /// the query for `general:layout`.
    pub fn get_layout(response: &str) -> (r: Result<String, String>)
        ensures
            match r {
                Ok(value) => str_value(response@) == Some(value@),
                Err(message) => str_value(response@) is None && message@
                    == "no str value in getoption response for "@ + "general:layout"@,
            },
    {
        Self::get_option_str(response, "general:layout")
    }

    /// The client with the given address, if one is live.
    pub fn get_client_by_address<'a>(clients: &'a Vec<HyprClient>, address: &str) -> (r: Option<
        &'a HyprClient,
    >)
        ensures
            r is Some <==> client_from(clients@, address@, 0) is Some,
            r matches Some(c) ==> client_from(clients@, address@, 0) == Some(*c),
    {
        proof {
            reveal_strlit("0x");
        }
        let wanted = trim_start_matches(address, "0x");
        for k in 0..clients.len()
            invariant
                "0x"@.len() == 2,
                wanted@ == without_leading(address@, "0x"@),
                client_from(clients@, address@, 0) == client_from(clients@, address@, k as int),
        {
            let c = &clients[k];
            if str_eq(trim_start_matches(c.address.as_str(), "0x"), wanted) {
                return Some(c);
            }
        }
        None
    }

    /// The monitors' names by id.
    pub fn get_monitor_map(monitors: &Vec<HyprMonitor>) -> (r: HashMap<i64, String>)
        ensures
            r@.map_values(|name: String| name@) == monitor_names(monitors@),
    {
        let mut names: HashMap<i64, String> = HashMap::new();
        proof {
            assert(obeys_key_model::<i64>());
            assert(names@.map_values(|name: String| name@) =~= Map::empty());
        }
        for i in 0..monitors.len()
            invariant
                obeys_key_model::<i64>(),
                names@.map_values(|name: String| name@) == monitor_names(monitors@.take(i as int)),
        {
            let ghost before = names@;
            names.insert(monitors[i].id, monitors[i].name.clone());
            proof {
                let t = monitors@.take(i as int + 1);
                assert(t.drop_last() =~= monitors@.take(i as int));
                assert(names@.map_values(|name: String| name@) =~= before.map_values(
                    |name: String| name@,
                ).insert(monitors@[i as int].id, monitors@[i as int].name@));
            }
        }
        assert(monitors@.take(monitors@.len() as int) =~= monitors@);
        names
    }
}

} // verus!
