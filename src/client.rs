use vstd::prelude::*;
use vstd::utf8::encode_utf8;

use crate::cow::{is_path, under};
use crate::path::{components, parse_components, same_path, strip_trailing_slash, FsPath, SLASH};
use crate::plan::{
    plan_view, read_plan, read_plan_spec, strictly_sorted, write_plan, write_plan_spec, TxEntry,
};
use crate::tx::TxBuilder;

verus! {

/// A handle on a database rooted at a directory; every path it is given is
/// relative to that root.
pub struct Client {
    pub root: FsPath,
}

impl Client {
    /// A client for the root directory `root`, read into normal form.
    pub fn new(root: &str) -> (r: Client)
        ensures
            r.root.absolute == (encode_utf8(root@).len() > 0 && encode_utf8(root@)[0] == SLASH),
            r.root.parts() == components(encode_utf8(root@)),
    {
        Client { root: strip_trailing_slash(root) }
    }

    /// The root directory.
    pub fn root(&self) -> (r: &FsPath)
        ensures
            *r == self.root,
    {
        &self.root
    }

    /// A transaction over this root that declares nothing yet.
    pub fn tx(&self) -> (r: TxBuilder)
        ensures
            same_path(r.root, self.root),
            r.reads@.len() == 0,
            r.writes@.len() == 0,
            r.wf(),
    {
        TxBuilder::new(self.root.copy())
    }

    /// The path that `rel` names under the root.
    pub fn path_of(&self, rel: &str) -> (r: FsPath)
        ensures
            is_path(r, under(self.root, rel)),
    {
        self.root.join(&parse_components(rel.as_bytes()))
    }

    /// The locks that reading `rel` takes, in the order they are taken: shared
    /// locks on the root, on each ancestor of `rel` and on `rel` itself.
    pub fn read_locks(&self, rel: &str) -> (r: Vec<TxEntry>)
        ensures
            plan_view(r@) == read_plan_spec(components(encode_utf8(rel@))),
            strictly_sorted(plan_view(r@)),
    {
        read_plan(&parse_components(rel.as_bytes()))
    }

    /// The locks that writing `rel` takes, in the order they are taken: shared
    /// locks on the root and each strict ancestor, then an exclusive lock on
    /// `rel`.
    pub fn write_locks(&self, rel: &str) -> (r: Vec<TxEntry>)
        ensures
            plan_view(r@) == write_plan_spec(components(encode_utf8(rel@))),
            strictly_sorted(plan_view(r@)),
    {
        write_plan(&parse_components(rel.as_bytes()))
    }
}

} // verus!
