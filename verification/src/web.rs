//! Web servers: their configuration, and which controllers a server's router is built from and
//! where each controller's routes are placed.

use vstd::prelude::*;

use crate::error::ErrorPtr;
use crate::registry::{contains_string, string_views};

verus! {

/// Name of the default server present in the default [WebConfig].
pub const DEFAULT_SERVER_NAME: &'static str = "default";

/// Server configuration.
#[non_exhaustive]
#[derive(Clone, Debug)]
pub struct ServerConfig {
    /// Address on which to listen.
    pub listen_address: String,
}

impl Default for ServerConfig {
    fn default() -> (r: Self)
        ensures
            r.listen_address@ == "0.0.0.0:80"@,
    {
        ServerConfig { listen_address: "0.0.0.0:80".to_string() }
    }
}

/// The server names of a configuration, in order.
pub open spec fn server_names(servers: Seq<(String, ServerConfig)>) -> Seq<Seq<char>> {
    servers.map_values(|e: (String, ServerConfig)| e.0@)
}

/// Framework configuration which can be provided by a [WebConfigProvider].
#[non_exhaustive]
#[derive(Clone, Debug)]
pub struct WebConfig {
    /// Server names with their config. Typically, only one server with one address is present
    /// (see [DEFAULT_SERVER_NAME]), but in case multiple servers are desired, they are listed
    /// here, each name once.
    pub servers: Vec<(String, ServerConfig)>,
}

impl WebConfig {
    /// Each server name occurs once.
    pub open spec fn well_formed(&self) -> bool {
        server_names(self.servers@).no_duplicates()
    }
}

impl Default for WebConfig {
    fn default() -> (r: Self)
        ensures
            r.well_formed(),
            r.servers@.len() == 1,
            r.servers@[0].0@ == DEFAULT_SERVER_NAME@,
            r.servers@[0].1.listen_address@ == "0.0.0.0:80"@,
    {
        let mut servers: Vec<(String, ServerConfig)> = Vec::new();
        servers.push((DEFAULT_SERVER_NAME.to_string(), ServerConfig::default()));
        let r = WebConfig { servers };
        assert(server_names(r.servers@) =~= seq![DEFAULT_SERVER_NAME@]);
        r
    }
}

/// The configuration source's content: the web configuration under its `web` key.
#[derive(Clone, Debug)]
pub struct WebConfigWrapper {
    pub web: WebConfig,
}

impl WebConfig {
    /// Takes the web configuration out of the loaded configuration source; a loading error is
    /// passed on.
    pub fn init_from_config(loaded: Result<WebConfigWrapper, ErrorPtr>) -> (r: Result<WebConfig, ErrorPtr>)
        ensures
            match loaded {
                Ok(w) => r == Ok::<WebConfig, ErrorPtr>(w.web),
                Err(e) => r == Err::<WebConfig, ErrorPtr>(e),
            },
    {
        match loaded {
            Ok(w) => Ok(w.web),
            Err(e) => Err(e),
        }
    }
}

/// Provider for [WebConfig]. The primary instance of the provider is used to retrieve web
/// configuration.
pub trait WebConfigProvider {
    /// Provide current config.
    fn config(&self) -> Result<&WebConfig, ErrorPtr>;
}

/// The provider used when no other is registered: it holds the configuration taken once from
/// the configuration source, or the error met doing so.
pub struct DefaultWebConfigProvider {
    config: Result<WebConfig, ErrorPtr>,
}

impl DefaultWebConfigProvider {
    /// The cached configuration, or the error met taking it.
    pub closed spec fn cached(&self) -> Result<WebConfig, ErrorPtr> {
        self.config
    }

    /// Creates the provider from the loaded configuration source.
    pub fn new(loaded: Result<WebConfigWrapper, ErrorPtr>) -> (r: Result<Self, ErrorPtr>)
        ensures
            r matches Ok(p) && match loaded {
                Ok(w) => p.cached() == Ok::<WebConfig, ErrorPtr>(w.web),
                Err(e) => p.cached() == Err::<WebConfig, ErrorPtr>(e),
            },
    {
        Ok(DefaultWebConfigProvider { config: WebConfig::init_from_config(loaded) })
    }
}

impl WebConfigProvider for DefaultWebConfigProvider {
    fn config(&self) -> (r: Result<&WebConfig, ErrorPtr>)
        ensures
            match self.cached() {
                Ok(c) => r == Ok::<&WebConfig, ErrorPtr>(&c),
                Err(e) => r matches Err(f) && f@ == e@,
            },
    {
        match &self.config {
            Ok(config) => Ok(config),
            Err(error) => Err(error.duplicate()),
        }
    }
}

/// Whether a controller with the given optional server name set is registered in the server of
/// the given name: a controller without a set serves every server.
pub open spec fn serves(server_names: Option<Vec<String>>, server_name: Seq<char>) -> bool {
    match server_names {
        None => true,
        Some(names) => string_views(names@).contains(server_name),
    }
}

/// A controller with a server name list serves exactly the servers whose name is one of the
/// names in the list, wherever in the list it stands; a controller without one serves every
/// server.
pub proof fn lemma_serves_is_membership(names: Vec<String>, server_name: Seq<char>)
    ensures
        serves(Some(names), server_name) <==> exists|i: int| 0 <= i < names@.len() && (#[trigger] names@[i])@ == server_name,
        serves(None, server_name),
{
    let views = string_views(names@);
    if serves(Some(names), server_name) {
        let i = choose|i: int| 0 <= i < views.len() && views[i] == server_name;
        assert(names@[i]@ == server_name);
    }
    if exists|i: int| 0 <= i < names@.len() && (#[trigger] names@[i])@ == server_name {
        let i = choose|i: int| 0 <= i < names@.len() && (#[trigger] names@[i])@ == server_name;
        assert(views[i] == server_name);
    }
}

/// Decides whether a controller with the given optional server name set is registered in the
/// server of the given name.
pub fn controller_serves(server_names: &Option<Vec<String>>, server_name: &String) -> (r: bool)
    ensures
        r == serves(*server_names, server_name@),
        server_names is None ==> r,
        server_names matches Some(names)
            ==> (r <==> exists|i: int| 0 <= i < names@.len() && (#[trigger] names@[i])@ == server_name@),
{
    proof {
        if let Some(names) = server_names {
            lemma_serves_is_membership(*names, server_name@);
        }
    }
    match server_names {
        None => true,
        Some(names) => contains_string(names, server_name),
    }
}

/// The positions, in order, of the controllers among the first `upto` which serve the server
/// of the given name.
pub open spec fn serving_positions(server_names: Seq<Option<Vec<String>>>, server_name: Seq<char>, upto: int) -> Seq<usize>
    decreases upto,
{
    if upto <= 0 {
        Seq::empty()
    } else {
        let before = serving_positions(server_names, server_name, upto - 1);
        if serves(server_names[upto - 1], server_name) {
            before.push((upto - 1) as usize)
        } else {
            before
        }
    }
}

/// Selects the controllers, given by their optional server name sets, whose routes go into the
/// router of the server of the given name: their positions, in controller order.
pub fn serving_controllers(server_names: &Vec<Option<Vec<String>>>, server_name: &String) -> (r: Vec<usize>)
    ensures
        r@ == serving_positions(server_names@, server_name@, server_names@.len() as int),
{
    let mut r: Vec<usize> = Vec::new();
    let mut i: usize = 0;
    while i < server_names.len()
        invariant
            i <= server_names.len(),
            r@ == serving_positions(server_names@, server_name@, i as int),
        decreases server_names.len() - i,
    {
        if controller_serves(&server_names[i], server_name) {
            r.push(i);
        }
        i += 1;
    }
    r
}

/// Where a controller's routes are placed in the router of a server.
#[derive(Clone, Debug, PartialEq, Eq)]
pub enum RouteMount {
    /// The routes are merged into the router: root-level routers cannot be nested.
    Merge,
    /// The routes are nested under the given path.
    Nest(String),
}

/// Whether a controller path places routes at the root.
pub open spec fn is_root_path(path: Seq<char>) -> bool {
    path.len() == 0 || path == "/"@
}

/// Decides where the routes of a controller with the given optional path go: a missing, empty or
/// root path merges them into the router; any other path nests them under that path.
pub fn controller_mount(path: Option<String>) -> (r: RouteMount)
    ensures
        match path {
            None => r is Merge,
            Some(p) => if is_root_path(p@) {
                r is Merge
            } else {
                r matches RouteMount::Nest(q) && q@ == p@
            },
        },
{
    match path {
        None => RouteMount::Merge,
        Some(p) => {
            let root = "/".to_string();
            proof {
                reveal_strlit("/");
            }
            if p.as_str().is_empty() || p == root {
                RouteMount::Merge
            } else {
                RouteMount::Nest(p)
            }
        },
    }
}

/// A step in building the router of a server.
#[derive(Clone, Copy, Debug, PartialEq, Eq, Structural)]
pub enum RouterStep {
    /// Create the router of the controller at the given position.
    CreateRouter(usize),
    /// Let the controller at the given position add its routes to its router.
    ConfigureRouter(usize),
    /// Let the controller at the given position adjust its router.
    PostConfigureRouter(usize),
    /// Place the controller's router in the server's router, where [controller_mount] says.
    Mount(usize),
    /// Let the router configure component at the given position adjust the server's router.
    ApplyConfigure(usize),
}

/// The step at a given count of steps done, for the serving controllers' positions and the
/// number of router configure components: four steps for each serving controller in order,
/// then one for each configure component in order.
pub open spec fn router_step_at(serving: Seq<usize>, configure_count: nat, step: int) -> Option<RouterStep> {
    if 0 <= step < 4 * serving.len() {
        let controller = serving[step / 4];
        Some(
            if step % 4 == 0 {
                RouterStep::CreateRouter(controller)
            } else if step % 4 == 1 {
                RouterStep::ConfigureRouter(controller)
            } else if step % 4 == 2 {
                RouterStep::PostConfigureRouter(controller)
            } else {
                RouterStep::Mount(controller)
            },
        )
    } else if 4 * serving.len() <= step < 4 * serving.len() + configure_count {
        Some(RouterStep::ApplyConfigure((step - 4 * serving.len()) as usize))
    } else {
        None
    }
}

/// Decides the next step in building a server's router, after `step` steps: none once a step
/// has failed, which ends the building with that error, or once every step is done.
pub fn next_router_step(serving: &Vec<usize>, configure_count: usize, step: usize, last_failed: bool) -> (r: Option<RouterStep>)
    requires
        4 * serving@.len() + configure_count <= usize::MAX,
    ensures
        last_failed ==> r is None,
        !last_failed ==> r == router_step_at(serving@, configure_count as nat, step as int),
{
    if last_failed {
        return None;
    }
    let controllers = serving.len() * 4;
    if step < controllers {
        let controller = serving[step / 4];
        let kind = step % 4;
        if kind == 0 {
            Some(RouterStep::CreateRouter(controller))
        } else if kind == 1 {
            Some(RouterStep::ConfigureRouter(controller))
        } else if kind == 2 {
            Some(RouterStep::PostConfigureRouter(controller))
        } else {
            Some(RouterStep::Mount(controller))
        }
    } else if step - controllers < configure_count {
        Some(RouterStep::ApplyConfigure(step - controllers))
    } else {
        None
    }
}

} // verus!
