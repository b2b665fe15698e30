//! What materializing an endpoint leaves behind.

use vstd::prelude::*;

verus! {

/// A file that the server side of an endpoint depends on, with the hash of
/// its content.
#[derive(Clone, Debug)]
pub struct ServerPath {
    pub path: String,
    pub content_hash: u64,
}

/// The mathematical value of a [`ServerPath`].
pub struct ServerPathView {
    pub path: Seq<char>,
    pub content_hash: u64,
}

impl View for ServerPath {
    type V = ServerPathView;

    open spec fn view(&self) -> ServerPathView {
        ServerPathView { path: self.path@, content_hash: self.content_hash }
    }
}

/// The output of one endpoint, tagged by the runtime that it was written for.
///
/// `server_paths` and `client_paths` name the files that matter for
/// invalidation on the server side and on the client side. They need not be
/// disjoint, and a path may occur for several endpoints.
#[derive(Clone, Debug)]
pub enum WrittenEndpoint {
    NodeJs {
        /// Relative to the root path, which the caller knows.
        server_entry_path: String,
        server_paths: Vec<ServerPath>,
        client_paths: Vec<String>,
    },
    Edge { server_paths: Vec<ServerPath>, client_paths: Vec<String> },
}

/// The runtime that an endpoint was written for.
#[derive(Clone, Copy, Debug, PartialEq, Eq, Structural)]
pub enum Runtime {
    NodeJs,
    Edge,
}

/// The mathematical value of a [`WrittenEndpoint`].
pub enum WrittenEndpointView {
    NodeJs {
        server_entry_path: Seq<char>,
        server_paths: Seq<ServerPathView>,
        client_paths: Seq<Seq<char>>,
    },
    Edge { server_paths: Seq<ServerPathView>, client_paths: Seq<Seq<char>> },
}

impl WrittenEndpointView {
    /// The runtime that the tag names.
    pub open spec fn runtime(self) -> Runtime {
        match self {
            WrittenEndpointView::NodeJs { .. } => Runtime::NodeJs,
            WrittenEndpointView::Edge { .. } => Runtime::Edge,
        }
    }

    /// The server entry path, which only output for Node.js has.
    pub open spec fn server_entry_path(self) -> Option<Seq<char>> {
        match self {
            WrittenEndpointView::NodeJs { server_entry_path, .. } => Some(server_entry_path),
            WrittenEndpointView::Edge { .. } => None,
        }
    }

    /// The files that matter on the server side.
    pub open spec fn server_paths(self) -> Seq<ServerPathView> {
        match self {
            WrittenEndpointView::NodeJs { server_paths, .. } => server_paths,
            WrittenEndpointView::Edge { server_paths, .. } => server_paths,
        }
    }

    /// The files that matter on the client side.
    pub open spec fn client_paths(self) -> Seq<Seq<char>> {
        match self {
            WrittenEndpointView::NodeJs { client_paths, .. } => client_paths,
            WrittenEndpointView::Edge { client_paths, .. } => client_paths,
        }
    }
}

/// The values of a list of server paths, in order.
pub open spec fn server_path_views(paths: Seq<ServerPath>) -> Seq<ServerPathView> {
    paths.map_values(|path: ServerPath| path@)
}

/// The values of a list of client paths, in order.
pub open spec fn client_path_views(paths: Seq<String>) -> Seq<Seq<char>> {
    paths.map_values(|path: String| path@)
}

impl View for WrittenEndpoint {
    type V = WrittenEndpointView;

    open spec fn view(&self) -> WrittenEndpointView {
        match *self {
            WrittenEndpoint::NodeJs {
                server_entry_path,
                server_paths,
                client_paths,
            } => WrittenEndpointView::NodeJs {
                server_entry_path: server_entry_path@,
                server_paths: server_path_views(server_paths@),
                client_paths: client_path_views(client_paths@),
            },
            WrittenEndpoint::Edge { server_paths, client_paths } => WrittenEndpointView::Edge {
                server_paths: server_path_views(server_paths@),
                client_paths: client_path_views(client_paths@),
            },
        }
    }
}

impl WrittenEndpoint {
    /// The runtime that the output was written for.
    pub fn runtime(&self) -> (runtime: Runtime)
        ensures
            runtime == self@.runtime(),
    {
        match self {
            WrittenEndpoint::NodeJs { .. } => Runtime::NodeJs,
            WrittenEndpoint::Edge { .. } => Runtime::Edge,
        }
    }

    /// The server entry path, relative to the root path. Output for the edge
    /// runtime has none.
    pub fn server_entry_path(&self) -> (path: Option<&String>)
        ensures
            match path {
                Some(found) => self@.server_entry_path() == Some(found@),
                None => self@.server_entry_path() is None,
            },
    {
        match self {
            WrittenEndpoint::NodeJs { server_entry_path, .. } => Some(server_entry_path),
            WrittenEndpoint::Edge { .. } => None,
        }
    }

    /// The files that matter for invalidation on the server side.
    pub fn server_paths(&self) -> (paths: &Vec<ServerPath>)
        ensures
            server_path_views(paths@) == self@.server_paths(),
    {
        match self {
            WrittenEndpoint::NodeJs { server_paths, .. } => server_paths,
            WrittenEndpoint::Edge { server_paths, .. } => server_paths,
        }
    }

    /// The files that matter for invalidation on the client side.
    pub fn client_paths(&self) -> (paths: &Vec<String>)
        ensures
            client_path_views(paths@) == self@.client_paths(),
    {
        match self {
            WrittenEndpoint::NodeJs { client_paths, .. } => client_paths,
            WrittenEndpoint::Edge { client_paths, .. } => client_paths,
        }
    }
}

/// The two kinds of output exclude each other, and the tag alone decides which
/// fields there are: output is for exactly one runtime, and it has a server
/// entry path exactly when that runtime is Node.js.
pub proof fn lemma_runtimes_exclusive(written: WrittenEndpointView)
    ensures
        (written is NodeJs) != (written is Edge),
        written is NodeJs <==> written.runtime() == Runtime::NodeJs,
        written is Edge <==> written.runtime() == Runtime::Edge,
        written.server_entry_path() is Some <==> written.runtime() == Runtime::NodeJs,
        written.server_entry_path() is None <==> written.runtime() == Runtime::Edge,
{
}

} // verus!
