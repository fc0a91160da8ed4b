//! The workspace synchronization engine: routes editor document events to
//! the workspace that owns the file, mirrors document text under the eager
//! policy, and says which preview server to signal for a reload.

use vstd::prelude::*;
use vstd::string::*;
use crate::documents::{DocumentCache, same_text};
use crate::text::{TextEdit, apply_edits, apply_edits_in_order};

verus! {

/// The URI scheme prefix of local files.
pub open spec fn file_scheme() -> Seq<char> {
    "file://"@
}

pub open spec fn is_prefix(p: Seq<char>, s: Seq<char>) -> bool {
    p.len() <= s.len() && s.subrange(0, p.len() as int) == p
}

/// The file path that a document URI names: the URI without its `file://`
/// prefix, or the URI itself when it has none.
pub open spec fn path_of(uri: Seq<char>) -> Seq<char> {
    if is_prefix(file_scheme(), uri) {
        uri.skip(file_scheme().len() as int)
    } else {
        uri
    }
}

/// Whether `root` is a prefix of `path` that ends at a path component
/// boundary.
pub open spec fn is_path_prefix(root: Seq<char>, path: Seq<char>) -> bool {
    &&& is_prefix(root, path)
    &&& (path.len() == root.len() || (root.len() > 0 && root.last() == '/') || path[root.len() as int] == '/')
}

/// `path` relative to `root`: without the `root` prefix and then without
/// one leading separator.
pub open spec fn relative_to(root: Seq<char>, path: Seq<char>) -> Seq<char> {
    let rest = if is_prefix(root, path) {
        path.skip(root.len() as int)
    } else {
        path
    };
    if rest.len() > 0 && rest[0] == '/' {
        rest.skip(1)
    } else {
        rest
    }
}

/// The workspace that owns `path`: among the roots that are path prefixes
/// of it, the longest, and the first of those in order.
pub open spec fn route_of(roots: Seq<Seq<char>>, path: Seq<char>) -> Option<int>
    decreases roots.len(),
{
    if roots.len() == 0 {
        None
    } else {
        let prev = route_of(roots.drop_last(), path);
        if is_path_prefix(roots.last(), path) && (prev matches Some(j) ==> roots[j].len() < roots.last().len()) {
            Some(roots.len() - 1)
        } else {
            prev
        }
    }
}

/// The chosen root is a path prefix of `path`, no matching root is longer,
/// and there is none exactly when no root matches.
pub proof fn lemma_route_of(roots: Seq<Seq<char>>, path: Seq<char>)
    ensures
        route_of(roots, path) matches Some(i) ==> 0 <= i < roots.len() && is_path_prefix(roots[i], path)
            && forall|j: int| 0 <= j < roots.len() && is_path_prefix(#[trigger] roots[j], path) ==> roots[j].len() <= roots[i].len(),
        route_of(roots, path) is None <==> forall|j: int| 0 <= j < roots.len() ==> !is_path_prefix(#[trigger] roots[j], path),
    decreases roots.len(),
{
    if roots.len() > 0 {
        let p = roots.drop_last();
        lemma_route_of(p, path);
        assert forall|j: int| 0 <= j < p.len() implies #[trigger] p[j] == roots[j] by {}
        if let Some(i) = route_of(roots, path) {
            assert forall|j: int| 0 <= j < roots.len() && is_path_prefix(#[trigger] roots[j], path) implies roots[j].len() <= roots[i].len() by {
                if j < roots.len() - 1 {
                    assert(p[j] == roots[j]);
                }
            }
        }
        if route_of(roots, path) is None {
            assert forall|j: int| 0 <= j < roots.len() implies !is_path_prefix(#[trigger] roots[j], path) by {
                if j < roots.len() - 1 {
                    assert(p[j] == roots[j]);
                }
            }
        }
    }
}

/// Whether `s` starts with `p`.
fn starts_with(s: &str, p: &str) -> (r: bool)
    ensures
        r == is_prefix(p@, s@),
{
    let n = p.unicode_len();
    if n > s.unicode_len() {
        return false;
    }
    let mut i: usize = 0;
    while i < n
        invariant
            n == p@.len(),
            n <= s@.len(),
            i <= n,
            forall|j: int| 0 <= j < i ==> s@[j] == p@[j],
        decreases n - i,
    {
        if s.get_char(i) != p.get_char(i) {
            assert(s@.subrange(0, n as int)[i as int] != p@[i as int]);
            return false;
        }
        i = i + 1;
    }
    assert(s@.subrange(0, n as int) =~= p@);
    true
}

/// The file path of a document URI (see `path_of`).
pub fn uri_path(uri: &str) -> (r: String)
    ensures
        r@ == path_of(uri@),
{
    if starts_with(uri, "file://") {
        let n = uri.unicode_len();
        let k = "file://".unicode_len();
        String::from_str(uri.substring_char(k, n))
    } else {
        String::from_str(uri)
    }
}

/// Whether `root` is a path prefix of `path` (see `is_path_prefix`).
pub fn has_path_prefix(root: &str, path: &str) -> (r: bool)
    ensures
        r == is_path_prefix(root@, path@),
{
    if !starts_with(path, root) {
        return false;
    }
    let n = root.unicode_len();
    let m = path.unicode_len();
    if m == n {
        return true;
    }
    if n > 0 && root.get_char(n - 1) == '/' {
        return true;
    }
    path.get_char(n) == '/'
}

/// `path` relative to `root` (see `relative_to`).
pub fn relative_path(root: &str, path: &str) -> (r: String)
    ensures
        r@ == relative_to(root@, path@),
{
    let m = path.unicode_len();
    let rest = if starts_with(path, root) {
        path.substring_char(root.unicode_len(), m)
    } else {
        path
    };
    let k = rest.unicode_len();
    if k > 0 && rest.get_char(0) == '/' {
        String::from_str(rest.substring_char(1, k))
    } else {
        String::from_str(rest)
    }
}

/// The name to show for a workspace: the folder's own name when it has
/// one, else the last component of its path, else a placeholder.
pub fn display_name(folder_name: &str, file_name: Option<String>) -> (r: String)
    ensures
        folder_name@.len() > 0 ==> r@ == folder_name@,
        folder_name@.len() == 0 && file_name is Some ==> r@ == file_name.unwrap()@,
        folder_name@.len() == 0 && file_name is None ==> r@ == "Unnamed Workspace"@,
{
    if folder_name.unicode_len() > 0 {
        String::from_str(folder_name)
    } else {
        match file_name {
            Some(f) => f,
            None => String::from_str("Unnamed Workspace"),
        }
    }
}

/// A request to reload: the preview server of workspace `workspace`
/// should refresh the file at `path`, relative to the workspace root.
#[derive(Clone, Debug)]
pub struct Reload {
    pub workspace: usize,
    pub path: String,
}

/// Why an editor command was refused.
#[derive(Clone, Copy, Debug, PartialEq, Eq, Structural)]
pub enum CommandError {
    /// The command needs a workspace root and got none.
    MissingArgument,
    /// The argument names no open workspace.
    InvalidArgument,
    /// No such command.
    UnknownCommand,
}

/// One editor workspace: its root path, display name, the port of its
/// preview server, and its mirrored documents.
pub struct Workspace {
    root: String,
    name: String,
    port: u16,
    docs: DocumentCache,
}

/// The engine: the workspaces of one editor session, the synchronization
/// mode, and the coordinator port that new preview servers start from.
pub struct SyncEngine {
    eager: bool,
    port: u16,
    workspaces: Vec<Workspace>,
}

impl SyncEngine {
    pub closed spec fn is_eager(&self) -> bool {
        self.eager
    }

    pub closed spec fn base_port(&self) -> u16 {
        self.port
    }

    /// The workspace roots, in the order they were added.
    pub closed spec fn roots(&self) -> Seq<Seq<char>> {
        self.workspaces@.map_values(|w: Workspace| w.root@)
    }

    pub closed spec fn ports(&self) -> Seq<u16> {
        self.workspaces@.map_values(|w: Workspace| w.port)
    }

    /// The display names of the workspaces.
    pub closed spec fn names(&self) -> Seq<Seq<char>> {
        self.workspaces@.map_values(|w: Workspace| w.name@)
    }

    /// Roots, names, ports and mirrored documents describe the same
    /// workspaces, one entry each.
    pub open spec fn wf(&self) -> bool {
        &&& self.names().len() == self.roots().len()
        &&& self.ports().len() == self.roots().len()
        &&& self.documents().len() == self.roots().len()
    }

    /// The mirrored documents of each workspace.
    pub closed spec fn documents(&self) -> Seq<Map<Seq<char>, Seq<char>>> {
        self.workspaces@.map_values(|w: Workspace| w.docs@)
    }

    proof fn lemma_views(&self)
        ensures
            self.roots().len() == self.workspaces@.len(),
            self.ports().len() == self.workspaces@.len(),
            self.documents().len() == self.workspaces@.len(),
            self.names().len() == self.workspaces@.len(),
            forall|i: int| 0 <= i < self.workspaces@.len() ==> {
                &&& #[trigger] self.roots()[i] == self.workspaces@[i].root@
                &&& self.names()[i] == self.workspaces@[i].name@
                &&& self.ports()[i] == self.workspaces@[i].port
                &&& self.documents()[i] == self.workspaces@[i].docs@
            },
    {
    }

    /// An engine with no workspaces.
    pub fn new(port: u16, eager: bool) -> (r: SyncEngine)
        ensures
            r.is_eager() == eager,
            r.base_port() == port,
            r.wf(),
            r.roots().len() == 0,
            r.names().len() == 0,
            r.ports().len() == 0,
            r.documents().len() == 0,
    {
        let r = SyncEngine { eager, port, workspaces: Vec::new() };
        proof {
            r.lemma_views();
        }
        r
    }

    /// Adds a workspace whose preview server starts at the base port.
    pub fn add_workspace(&mut self, root: String, name: String) -> (r: usize)
        ensures
            r == old(self).roots().len(),
            final(self).is_eager() == old(self).is_eager(),
            final(self).base_port() == old(self).base_port(),
            final(self).wf(),
            final(self).roots() == old(self).roots().push(root@),
            final(self).names() == old(self).names().push(name@),
            final(self).ports() == old(self).ports().push(old(self).base_port()),
            final(self).documents() == old(self).documents().push(Map::<Seq<char>, Seq<char>>::empty()),
    {
        proof {
            self.lemma_views();
        }
        let r = self.workspaces.len();
        let w = Workspace { root, name, port: self.port, docs: DocumentCache::new() };
        self.workspaces.push(w);
        proof {
            self.lemma_views();
            assert(self.roots() =~= old(self).roots().push(w.root@));
            assert(self.names() =~= old(self).names().push(w.name@));
            assert(self.ports() =~= old(self).ports().push(old(self).base_port()));
            assert(self.documents() =~= old(self).documents().push(Map::<Seq<char>, Seq<char>>::empty()));
        }
        r
    }

    /// The number of workspaces.
    pub fn len(&self) -> (r: usize)
        ensures
            r == self.roots().len(),
    {
        proof {
            self.lemma_views();
        }
        self.workspaces.len()
    }

    /// The root of workspace `i`.
    pub fn root(&self, i: usize) -> (r: String)
        requires
            i < self.roots().len(),
        ensures
            r@ == self.roots()[i as int],
    {
        proof {
            self.lemma_views();
        }
        self.workspaces[i].root.clone()
    }

    /// The display name of workspace `i`.
    pub fn name(&self, i: usize) -> (r: String)
        requires
            i < self.roots().len(),
        ensures
            r@ == self.names()[i as int],
    {
        proof {
            self.lemma_views();
        }
        self.workspaces[i].name.clone()
    }

    /// The port of the preview server of workspace `i`.
    pub fn port(&self, i: usize) -> (r: u16)
        requires
            i < self.roots().len(),
        ensures
            r == self.ports()[i as int],
    {
        proof {
            self.lemma_views();
        }
        self.workspaces[i].port
    }

    /// The preview server of workspace `i` could not bind its port: moves
    /// it to the next port. Returns false, changing nothing, at the last
    /// port.
    pub fn advance_port(&mut self, i: usize) -> (r: bool)
        requires
            i < old(self).roots().len(),
        ensures
            r == (old(self).ports()[i as int] < u16::MAX),
            r ==> final(self).ports() == old(self).ports().update(i as int, (old(self).ports()[i as int] + 1) as u16),
            !r ==> final(self).ports() == old(self).ports(),
            final(self).roots() == old(self).roots(),
            final(self).names() == old(self).names(),
            final(self).wf(),
            final(self).documents() == old(self).documents(),
            final(self).is_eager() == old(self).is_eager(),
            final(self).base_port() == old(self).base_port(),
    {
        proof {
            self.lemma_views();
        }
        if self.workspaces[i].port == u16::MAX {
            return false;
        }
        self.workspaces[i].port = self.workspaces[i].port + 1;
        proof {
            self.lemma_views();
            assert(self.roots() =~= old(self).roots());
                        assert(self.names() =~= old(self).names());
            assert(self.documents() =~= old(self).documents());
            assert(self.ports() =~= old(self).ports().update(i as int, (old(self).ports()[i as int] + 1) as u16));
        }
        true
    }

    /// The workspace that owns the file at `path` (see `route_of`).
    pub fn route_path(&self, path: &str) -> (r: Option<usize>)
        ensures
            r matches Some(i) ==> route_of(self.roots(), path@) == Some(i as int),
            r is None ==> route_of(self.roots(), path@) is None,
    {
        proof {
            self.lemma_views();
        }
        let mut best: Option<usize> = None;
        let mut best_len: usize = 0;
        let mut i: usize = 0;
        while i < self.workspaces.len()
            invariant
                i <= self.workspaces@.len(),
                self.roots().len() == self.workspaces@.len(),
                forall|j: int| 0 <= j < self.workspaces@.len() ==> #[trigger] self.roots()[j] == self.workspaces@[j].root@,
                best matches Some(b) ==> route_of(self.roots().take(i as int), path@) == Some(b as int)
                    && best_len == self.roots()[b as int].len() && b < i,
                best is None ==> route_of(self.roots().take(i as int), path@) is None,
            decreases self.workspaces@.len() - i,
        {
            let ghost t = self.roots().take(i as int + 1);
            proof {
                assert(t.drop_last() =~= self.roots().take(i as int));
                assert(t.last() == self.workspaces@[i as int].root@);
                if let Some(b) = best {
                    assert(t[b as int] == self.roots()[b as int]);
                }
            }
            let root = self.workspaces[i].root.as_str();
            if has_path_prefix(root, path) {
                let n = root.unicode_len();
                let better = match best {
                    Some(_) => best_len < n,
                    None => true,
                };
                if better {
                    best = Some(i);
                    best_len = n;
                }
            }
            i = i + 1;
        }
        proof {
            assert(self.roots().take(self.workspaces@.len() as int) =~= self.roots());
        }
        best
    }

    /// The workspace that owns the document at `uri`.
    pub fn route(&self, uri: &str) -> (r: Option<usize>)
        ensures
            r matches Some(i) ==> route_of(self.roots(), path_of(uri@)) == Some(i as int),
            r is None ==> route_of(self.roots(), path_of(uri@)) is None,
    {
        let path = uri_path(uri);
        self.route_path(path.as_str())
    }

    /// The workspace that owns the document at `uri` (see `route_of`).
    pub open spec fn owner(&self, uri: Seq<char>) -> Option<int> {
        route_of(self.roots(), path_of(uri))
    }

    /// Whether an event on `uri` is signalled: the document belongs to a
    /// workspace and the event is a save, or the engine is eager.
    pub open spec fn signals(&self, uri: Seq<char>, saved: bool) -> bool {
        self.owner(uri) is Some && (saved || self.is_eager())
    }

    /// The reload request that an event on `uri` gives, when it gives one.
    pub open spec fn reload_ok(&self, uri: Seq<char>, saved: bool, r: Option<Reload>) -> bool {
        &&& r is Some <==> self.signals(uri, saved)
        &&& r is Some ==> {
            &&& self.owner(uri) == Some(r.unwrap().workspace as int)
            &&& r.unwrap().path@ == relative_to(self.roots()[r.unwrap().workspace as int], path_of(uri))
        }
    }

    /// The document `uri` was opened with `text`. The eager engine mirrors
    /// the text and asks for a reload; the lazy one does neither.
    pub fn open(&mut self, uri: &str, text: String) -> (r: Option<Reload>)
        ensures
            final(self).roots() == old(self).roots(),
            final(self).names() == old(self).names(),
            final(self).wf(),
            final(self).ports() == old(self).ports(),
            final(self).is_eager() == old(self).is_eager(),
            final(self).base_port() == old(self).base_port(),
            old(self).is_eager() && old(self).owner(uri@) is Some ==> final(self).documents()
                == old(self).documents().update(
                old(self).owner(uri@).unwrap(),
                old(self).documents()[old(self).owner(uri@).unwrap()].insert(uri@, text@),
            ),
            !(old(self).is_eager() && old(self).owner(uri@) is Some) ==> final(self).documents()
                == old(self).documents(),
            old(self).reload_ok(uri@, false, r),
    {
        proof {
            self.lemma_views();
            lemma_route_of(self.roots(), path_of(uri@));
        }
        match self.route(uri) {
            Some(j) => {
                if self.eager {
                    self.workspaces[j].docs.insert(String::from_str(uri), text);
                    proof {
                        self.lemma_views();
                        assert(self.roots() =~= old(self).roots());
                        assert(self.names() =~= old(self).names());
                        assert(self.ports() =~= old(self).ports());
                        assert(self.documents() =~= old(self).documents().update(
                            j as int,
                            old(self).documents()[j as int].insert(uri@, text@),
                        ));
                    }
                    Some(self.reload_for(j, uri))
                } else {
                    None
                }
            },
            None => None,
        }
    }

    /// The document `uri` changed by `edits`, in order. The eager engine
    /// applies them to its mirror of the document, when it holds one, and
    /// asks for a reload; the lazy one does neither.
    pub fn change(&mut self, uri: &str, edits: &Vec<TextEdit>) -> (r: Option<Reload>)
        ensures
            final(self).roots() == old(self).roots(),
            final(self).names() == old(self).names(),
            final(self).wf(),
            final(self).ports() == old(self).ports(),
            final(self).is_eager() == old(self).is_eager(),
            final(self).base_port() == old(self).base_port(),
            old(self).is_eager() && old(self).owner(uri@) is Some && old(self).documents()[old(
                self,
            ).owner(uri@).unwrap()].contains_key(uri@) ==> final(self).documents() == old(self).documents().update(
                old(self).owner(uri@).unwrap(),
                old(self).documents()[old(self).owner(uri@).unwrap()].insert(
                    uri@,
                    apply_edits(old(self).documents()[old(self).owner(uri@).unwrap()][uri@], edits@),
                ),
            ),
            !(old(self).is_eager() && old(self).owner(uri@) is Some && old(self).documents()[old(
                self,
            ).owner(uri@).unwrap()].contains_key(uri@)) ==> final(self).documents() == old(self).documents(),
            old(self).reload_ok(uri@, false, r),
    {
        proof {
            self.lemma_views();
            lemma_route_of(self.roots(), path_of(uri@));
        }
        match self.route(uri) {
            Some(j) => {
                if self.eager {
                    match self.workspaces[j].docs.get(uri) {
                        Some(current) => {
                            let next = apply_edits_in_order(&current, edits);
                            self.workspaces[j].docs.insert(String::from_str(uri), next);
                            proof {
                                self.lemma_views();
                                assert(self.roots() =~= old(self).roots());
                        assert(self.names() =~= old(self).names());
                                assert(self.ports() =~= old(self).ports());
                                assert(self.documents() =~= old(self).documents().update(
                                    j as int,
                                    old(self).documents()[j as int].insert(uri@, next@),
                                ));
                            }
                        },
                        None => {},
                    }
                    Some(self.reload_for(j, uri))
                } else {
                    None
                }
            },
            None => None,
        }
    }

    /// The document `uri` was saved: asks for a reload in either mode.
    pub fn save(&self, uri: &str) -> (r: Option<Reload>)
        ensures
            self.reload_ok(uri@, true, r),
    {
        proof {
            lemma_route_of(self.roots(), path_of(uri@));
        }
        match self.route(uri) {
            Some(j) => {
                proof {
                    self.lemma_views();
                }
                Some(self.reload_for(j, uri))
            },
            None => None,
        }
    }

    /// The document `uri` was closed: drops its mirror. Nothing is
    /// signalled.
    pub fn close(&mut self, uri: &str)
        ensures
            final(self).roots() == old(self).roots(),
            final(self).names() == old(self).names(),
            final(self).wf(),
            final(self).ports() == old(self).ports(),
            final(self).is_eager() == old(self).is_eager(),
            final(self).base_port() == old(self).base_port(),
            old(self).owner(uri@) is Some ==> final(self).documents() == old(self).documents().update(
                old(self).owner(uri@).unwrap(),
                old(self).documents()[old(self).owner(uri@).unwrap()].remove(uri@),
            ),
            old(self).owner(uri@) is None ==> final(self).documents() == old(self).documents(),
    {
        proof {
            self.lemma_views();
            lemma_route_of(self.roots(), path_of(uri@));
        }
        match self.route(uri) {
            Some(j) => {
                self.workspaces[j].docs.remove(uri);
                proof {
                    self.lemma_views();
                    assert(self.roots() =~= old(self).roots());
                        assert(self.names() =~= old(self).names());
                    assert(self.ports() =~= old(self).ports());
                    assert(self.documents() =~= old(self).documents().update(
                        j as int,
                        old(self).documents()[j as int].remove(uri@),
                    ));
                }
            },
            None => {},
        }
    }

    /// The mirrored text to serve for the file at `path`: present only in
    /// eager mode, for a document of the owning workspace that is mirrored
    /// under the URI `file://` + `path`. Otherwise the file is read from disk.
    pub fn cached_content(&self, path: &str) -> (r: Option<String>)
        ensures
            r is Some <==> self.is_eager() && route_of(self.roots(), path@) is Some
                && self.documents()[route_of(self.roots(), path@).unwrap()].contains_key(file_scheme() + path@),
            r matches Some(t) ==> t@ == self.documents()[route_of(self.roots(), path@).unwrap()][file_scheme() + path@],
    {
        proof {
            self.lemma_views();
            lemma_route_of(self.roots(), path@);
        }
        if !self.eager {
            return None;
        }
        match self.route_path(path) {
            Some(j) => {
                let mut uri = String::from_str("file://");
                uri.append(path);
                self.workspaces[j].docs.get(uri.as_str())
            },
            None => None,
        }
    }

    /// The index of the workspace whose root is exactly `root`, if any.
    fn find_root(&self, root: &str) -> (r: Option<usize>)
        ensures
            r matches Some(i) ==> i < self.roots().len() && self.roots()[i as int] == root@,
            r is None ==> !self.roots().contains(root@),
    {
        proof {
            self.lemma_views();
        }
        let mut i: usize = 0;
        while i < self.workspaces.len()
            invariant
                i <= self.workspaces@.len(),
                self.roots().len() == self.workspaces@.len(),
                forall|j: int| 0 <= j < self.workspaces@.len() ==> #[trigger] self.roots()[j] == self.workspaces@[j].root@,
                forall|j: int| 0 <= j < i ==> self.roots()[j] != root@,
            decreases self.workspaces@.len() - i,
        {
            if same_text(self.workspaces[i].root.as_str(), root) {
                return Some(i);
            }
            i = i + 1;
        }
        None
    }

    /// Resolves an editor command to the port whose page to open:
    /// `openProjectWeb` with a workspace root opens that workspace's
    /// preview, `openProjectsWeb` the coordinator's dashboard.
    pub fn resolve_command(&self, command: &str, argument: Option<&str>) -> (r: Result<u16, CommandError>)
        ensures
            command@ == "openProjectWeb"@ ==> match argument {
                None => r == Err::<u16, CommandError>(CommandError::MissingArgument),
                Some(a) => (self.roots().contains(a@) <==> r is Ok) && (!self.roots().contains(a@) ==> r
                    == Err::<u16, CommandError>(CommandError::InvalidArgument)) && (r matches Ok(p) ==> exists|i: int|
                    0 <= i < self.roots().len() && self.roots()[i] == a@ && #[trigger] self.ports()[i] == p),
            },
            command@ != "openProjectWeb"@ && command@ == "openProjectsWeb"@ ==> r == Ok::<u16, CommandError>(self.base_port()),
            command@ != "openProjectWeb"@ && command@ != "openProjectsWeb"@ ==> r == Err::<u16, CommandError>(CommandError::UnknownCommand),
    {
        proof {
            self.lemma_views();
        }
        if same_text(command, "openProjectWeb") {
            match argument {
                None => Err(CommandError::MissingArgument),
                Some(a) => match self.find_root(a) {
                    Some(i) => {
                        let p = self.workspaces[i].port;
                        assert(self.ports()[i as int] == p);
                        Ok(p)
                    },
                    None => Err(CommandError::InvalidArgument),
                },
            }
        } else if same_text(command, "openProjectsWeb") {
            Ok(self.port)
        } else {
            Err(CommandError::UnknownCommand)
        }
    }

    /// The reload request for the document at `uri` in workspace `i`.
    fn reload_for(&self, i: usize, uri: &str) -> (r: Reload)
        requires
            i < self.roots().len(),
        ensures
            r.workspace == i,
            r.path@ == relative_to(self.roots()[i as int], path_of(uri@)),
    {
        proof {
            self.lemma_views();
        }
        let path = uri_path(uri);
        Reload { workspace: i, path: relative_path(self.workspaces[i].root.as_str(), path.as_str()) }
    }
}

} // verus!
