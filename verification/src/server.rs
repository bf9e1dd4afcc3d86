//! What the server process is started with, and the state its request
//! handlers share. The listener itself — sockets, middleware, the accept
//! loop — lives outside this crate and reads these values.

use vstd::prelude::*;
use crate::routes::Routes;
use crate::routes::routes_view;

verus! {

/// Everything `serve` needs: the project root, the table built at startup,
/// the bind address, and the allowed CORS origins, if any.
pub struct ServeOptions {
    pub root_path: String,
    pub base_routes: Routes,
    pub hostname: String,
    pub port: u16,
    pub cors_origins: Option<Vec<String>>,
}

/// The read-only state every concurrent request handler shares.
pub struct AppData {
    pub routes: Routes,
    pub root_path: String,
    pub cors_origins: Option<Vec<String>>,
}

impl Default for AppData {
    fn default() -> (r: Self)
        ensures
            r.routes@.len() == 0,
            r.root_path@ == Seq::<char>::empty(),
            r.cors_origins is None,
    {
        let r = AppData {
            routes: Routes { routes: Vec::new() },
            root_path: String::new(),
            cors_origins: None,
        };
        proof {
            assert(routes_view(Seq::empty()) =~~= Seq::<crate::routes::RouteV>::empty());
        }
        r
    }
}

impl From<ServeOptions> for AppData {
    /// The handler state is the startup options minus the bind address.
    fn from(serve_options: ServeOptions) -> (r: Self) {
        AppData {
            routes: serve_options.base_routes,
            root_path: serve_options.root_path,
            cors_origins: serve_options.cors_origins,
        }
    }
}

impl vstd::std_specs::convert::FromSpecImpl<ServeOptions> for AppData {
    open spec fn obeys_from_spec() -> bool {
        true
    }

    open spec fn from_spec(v: ServeOptions) -> AppData {
        AppData { routes: v.base_routes, root_path: v.root_path, cors_origins: v.cors_origins }
    }
}

} // verus!
