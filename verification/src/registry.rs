//! The registry scanner: walks a directory tree, parses the descriptor
//! file of every module it finds, and returns the flat list of modules.
//!
//! The tree is handed in as a value ([`FsNode`]), read off the real file
//! system by the caller; the traversal itself — depth first, in entry
//! order, stopping at the first descriptor of a subtree — is verified
//! against the event sequence [`scan_events`].

use crate::descriptor::{
    descriptor_module, descriptor_ok, distinct_keys, parse_descriptor, Module,
};
use crate::order::str_eq;
use crate::Error;
use vstd::prelude::*;
use vstd::string::StringExecFns;

verus! {

/// A named node of a directory listing.
pub struct FsEntry {
    pub name: String,
    pub node: FsNode,
}

/// One node of the scanned tree.
pub enum FsNode {
    /// The path does not exist.
    Missing,
    /// The node exists but reading or listing it fails.
    Unreadable,
    /// A regular file and its contents.
    File { text: String },
    /// A directory and its entries, in the order the reader fixed.
    Dir { entries: Vec<FsEntry> },
}

/// What the traversal meets, in depth-first order: a descriptor found in
/// a directory, or a node that cannot be read.
pub enum ScanEvent {
    Desc { path: Seq<char>, text: Seq<char> },
    Fail { path: Seq<char> },
}

/// The file name that marks a directory as a module.
pub open spec fn descriptor_file_name() -> Seq<char> {
    "module.toml"@
}

/// `base` and `name` joined with a separator.
pub open spec fn join_path(base: Seq<char>, name: Seq<char>) -> Seq<char> {
    base + "/"@ + name
}

/// The text of the first descriptor file among `entries`, if any.
pub open spec fn first_desc_text(entries: Seq<FsEntry>) -> Option<Seq<char>>
    decreases entries.len(),
{
    if entries.len() == 0 {
        None
    } else if entries[0].name@ == descriptor_file_name() && entries[0].node is File {
        Some(entries[0].node->text@)
    } else {
        first_desc_text(entries.drop_first())
    }
}

/// The events a scan of `node`, mounted at `path`, meets in order.  A
/// directory carrying a descriptor is a leaf: its subtree yields that one
/// event and nothing below it is visited.
pub open spec fn scan_events(node: FsNode, path: Seq<char>) -> Seq<ScanEvent>
    decreases node, 1int,
{
    match node {
        FsNode::Missing => Seq::empty(),
        FsNode::Unreadable => seq![ScanEvent::Fail { path }],
        FsNode::File { .. } => seq![ScanEvent::Fail { path }],
        FsNode::Dir { entries } => match first_desc_text(entries@) {
            Some(text) => seq![ScanEvent::Desc { path, text }],
            None => scan_events_list(entries@, path),
        },
    }
}

/// The events of the children `entries` of a directory at `path`, in
/// order.  Plain files and missing nodes yield nothing; an unreadable
/// child is a failure; a child directory contributes its own scan.
pub open spec fn scan_events_list(entries: Seq<FsEntry>, path: Seq<char>) -> Seq<ScanEvent>
    decreases entries, 0int,
{
    if entries.len() == 0 {
        Seq::empty()
    } else {
        (match entries[0].node {
            FsNode::Dir { .. } => scan_events(
                entries[0].node,
                join_path(path, entries[0].name@),
            ),
            FsNode::Unreadable => seq![
                ScanEvent::Fail { path: join_path(path, entries[0].name@) },
            ],
            FsNode::File { .. } => Seq::empty(),
            FsNode::Missing => Seq::empty(),
        }) + scan_events_list(entries.drop_first(), path)
    }
}

/// What `discover_modules` and `visit` promise of a scan of `node` at
/// `path`, result `r`:
/// - on success the modules correspond one to one, in order, to the
///   descriptors the traversal meets, each the parse of its descriptor's
///   text, rooted at the directory it was found in, and the traversal
///   met no failure;
/// - an error names the path of the first descriptor whose text breaks
///   the format, or of the first unreadable node, nothing before it
///   having failed;
/// - a scan that meets nothing returns the empty list.
pub open spec fn scan_post(node: FsNode, path: Seq<char>, r: Result<Vec<Module>, Error>) -> bool {
    let evs = scan_events(node, path);
    &&& (match r {
        Ok(mods) => {
            &&& (forall|k: int| 0 <= k < evs.len() ==> evs[k] is Desc)
            &&& mods@.len() == evs.len()
            &&& (forall|k: int|
                0 <= k < evs.len() ==> (#[trigger] mods@[k]).root@ == evs[k]->Desc_path
                    && descriptor_module(evs[k]->Desc_text, evs[k]->Desc_path, mods@[k])
                    && mods@[k].wf() && distinct_keys(mods@[k].actions@))
        },
        Err(e) => match e {
            Error::DescriptorInvalid(p) => exists|k: int|
                0 <= k < evs.len() && (#[trigger] evs[k]) is Desc && evs[k]->Desc_path == p@
                    && !descriptor_ok(evs[k]->Desc_text) && (forall|j: int|
                    0 <= j < k ==> evs[j] is Desc),
            Error::ScanIo(p) => exists|k: int|
                0 <= k < evs.len() && (#[trigger] evs[k]) is Fail && evs[k]->Fail_path == p@ && (
                forall|j: int| 0 <= j < k ==> evs[j] is Desc),
            Error::Unimplemented => false,
        },
    })
    &&& (evs.len() == 0 ==> (r matches Ok(mods) && mods@.len() == 0))
}

/// Registry handle that remembers where the module tree is mounted.
pub struct Registry {
    pub modules_dir: String,
}

impl Registry {
    /// A registry rooted at `modules_dir`.
    pub fn new(modules_dir: String) -> (r: Self)
        ensures
            r.modules_dir == modules_dir,
    {
        Registry { modules_dir }
    }

    /// Scans `root`, a reading of the tree below `modules_dir`.
    pub fn modules(&self, root: &FsNode) -> (r: Result<Vec<Module>, Error>)
        ensures
            scan_post(*root, self.modules_dir@, r),
    {
        discover_modules(root, self.modules_dir.as_str())
    }
}

/// Looks for modules beneath `root`, mounted at `root_path`.  A missing
/// root is a normal empty state, not an error.
pub fn discover_modules(root: &FsNode, root_path: &str) -> (r: Result<Vec<Module>, Error>)
    ensures
        scan_post(*root, root_path@, r),
        root is Missing ==> (r matches Ok(mods) && mods@.len() == 0),
{
    match root {
        FsNode::Missing => Ok(Vec::new()),
        _ => visit(root, root_path),
    }
}

/// The descriptor file's contents among `entries`, per `first_desc_text`.
fn find_descriptor<'a>(entries: &'a Vec<FsEntry>) -> (r: Option<&'a String>)
    ensures
        (match r {
            Some(text) => first_desc_text(entries@) == Some(text@),
            None => first_desc_text(entries@) is None,
        }),
{
    let n = entries.len();
    let mut i: usize = 0;
    proof {
        assert(entries@.skip(0) =~= entries@);
    }
    loop
        invariant
            i <= n,
            n == entries@.len(),
            first_desc_text(entries@) == first_desc_text(entries@.skip(i as int)),
        decreases n - i,
    {
        if i >= n {
            assert(entries@.skip(i as int).len() == 0);
            return None;
        }
        assert(entries@.skip(i as int)[0] == entries@[i as int]);
        match &entries[i].node {
            FsNode::File { text } => {
                if str_eq(entries[i].name.as_str(), "module.toml") {
                    return Some(text);
                }
            },
            _ => {},
        }
        proof {
            assert(entries@.skip(i as int).drop_first() =~= entries@.skip(i as int + 1));
        }
        i = i + 1;
    }
}

/// One step of the traversal; `path` is where `node` is mounted.
fn visit(node: &FsNode, path: &str) -> (r: Result<Vec<Module>, Error>)
    ensures
        scan_post(*node, path@, r),
    decreases *node, 1int,
{
    match node {
        FsNode::Missing => Ok(Vec::new()),
        FsNode::Unreadable => Err(Error::ScanIo(path.to_owned())),
        FsNode::File { .. } => Err(Error::ScanIo(path.to_owned())),
        FsNode::Dir { entries } => {
            if let Some(text) = find_descriptor(entries) {
                let ghost evs = scan_events(*node, path@);
                proof {
                    assert(evs =~= seq![ScanEvent::Desc { path: path@, text: text@ }]);
                }
                match parse_descriptor(text.as_str(), path) {
                    Ok(m) => {
                        let mut mods: Vec<Module> = Vec::new();
                        mods.push(m);
                        return Ok(mods);
                    },
                    Err(e) => {
                        proof {
                            assert(evs[0] is Desc);
                        }
                        return Err(e);
                    },
                }
            }
            visit_children(node, entries, path)
        },
    }
}

/// Scans the children of a directory that carries no descriptor itself.
fn visit_children(node: &FsNode, entries: &Vec<FsEntry>, path: &str) -> (r: Result<
    Vec<Module>,
    Error,
>)
    requires
        *node matches FsNode::Dir { entries: es } && es@ == entries@,
        first_desc_text(entries@) is None,
    ensures
        scan_post(*node, path@, r),
    decreases *node, 0int,
{
    let n = entries.len();
    let mut mods: Vec<Module> = Vec::new();
    let mut i: usize = 0;
    let ghost all = scan_events_list(entries@, path@);
    let ghost done: Seq<ScanEvent> = Seq::empty();
    proof {
        assert(entries@.skip(0) =~= entries@);
        assert(done + scan_events_list(entries@.skip(0), path@) =~= all);
    }
    loop
        invariant
            i <= n,
            n == entries@.len(),
            *node matches FsNode::Dir { entries: es } && es@ == entries@,
            first_desc_text(entries@) is None,
            all == scan_events_list(entries@, path@),
            done + scan_events_list(entries@.skip(i as int), path@) == all,
            forall|k: int| 0 <= k < done.len() ==> (#[trigger] done[k]) is Desc,
            mods@.len() == done.len(),
            forall|k: int|
                0 <= k < done.len() ==> (#[trigger] mods@[k]).root@ == done[k]->Desc_path
                    && descriptor_module(done[k]->Desc_text, done[k]->Desc_path, mods@[k])
                    && mods@[k].wf() && distinct_keys(mods@[k].actions@),
        decreases n - i,
    {
        if i >= n {
            proof {
                assert(entries@.skip(i as int).len() == 0);
                assert(scan_events_list(entries@.skip(i as int), path@) =~= Seq::<
                    ScanEvent,
                >::empty());
                assert(done =~= all);
                assert(scan_events(*node, path@) == all);
            }
            return Ok(mods);
        }
        let ghost rest = entries@.skip(i as int);
        proof {
            assert(rest[0] == entries@[i as int]);
            assert(rest.drop_first() =~= entries@.skip(i as int + 1));
        }
        let mut child_path = path.to_owned();
        child_path.append("/");
        child_path.append(entries[i].name.as_str());
        proof {
            assert(child_path@ == join_path(path@, entries@[i as int].name@));
        }
        let ghost step: Seq<ScanEvent> = match entries@[i as int].node {
            FsNode::Dir { .. } => scan_events(
                entries@[i as int].node,
                join_path(path@, entries@[i as int].name@),
            ),
            FsNode::Unreadable => seq![
                ScanEvent::Fail { path: join_path(path@, entries@[i as int].name@) },
            ],
            FsNode::File { .. } => Seq::empty(),
            FsNode::Missing => Seq::empty(),
        };
        proof {
            assert(scan_events_list(rest, path@) == step + scan_events_list(
                rest.drop_first(),
                path@,
            ));
        }
        match &entries[i].node {
            FsNode::Dir { .. } => {
                proof {
                    assert(node->entries@ == entries@);
                    assert(decreases_to!(*node => node->entries));
                    assert(decreases_to!(node->entries => node->entries@));
                    assert(decreases_to!(node->entries@ => node->entries@[i as int]));
                    assert(decreases_to!(node->entries@[i as int] => node->entries@[i as int].node));
                }
                let sub = visit(&entries[i].node, child_path.as_str());
                match sub {
                    Ok(mut new_mods) => {
                        proof {
                            assert(forall|k: int|
                                0 <= k < step.len() ==> (#[trigger] step[k]) is Desc);
                        }
                        proof {
                            done = done + step;
                            assert(done + scan_events_list(entries@.skip(i as int + 1), path@)
                                =~= all);
                        }
                        mods.append(&mut new_mods);
                    },
                    Err(e) => {
                        proof {
                            let tail = scan_events_list(rest.drop_first(), path@);
                            assert(scan_events(*node, path@) == all);
                            assert(all =~= done + step + tail);
                            lemma_error_shift(*node, path@, done, step, tail, e);
                        }
                        return Err(e);
                    },
                }
            },
            FsNode::Unreadable => {
                let e = Error::ScanIo(child_path);
                proof {
                    let k = done.len() as int;
                    assert(all[k] == step[0]);
                    assert(all[k] is Fail);
                    assert(scan_events(*node, path@) == all);
                }
                return Err(e);
            },
            FsNode::File { .. } => {
                proof {
                    assert(done + scan_events_list(entries@.skip(i as int + 1), path@) =~= all);
                }
            },
            FsNode::Missing => {
                proof {
                    assert(done + scan_events_list(entries@.skip(i as int + 1), path@) =~= all);
                }
            },
        }
        i = i + 1;
    }
}

/// An error of a child scan, seen at events `step`, stays an error of the
/// whole directory scan whose events are `done + step + rest` with `done`
/// all descriptors.
proof fn lemma_error_shift(
    node: FsNode,
    path: Seq<char>,
    done: Seq<ScanEvent>,
    step: Seq<ScanEvent>,
    rest: Seq<ScanEvent>,
    e: Error,
)
    requires
        scan_events(node, path) == done + step + rest,
        forall|k: int| 0 <= k < done.len() ==> (#[trigger] done[k]) is Desc,
        (match e {
            Error::DescriptorInvalid(p) => exists|k: int|
                0 <= k < step.len() && (#[trigger] step[k]) is Desc && step[k]->Desc_path == p@
                    && !descriptor_ok(step[k]->Desc_text) && (forall|j: int|
                    0 <= j < k ==> step[j] is Desc),
            Error::ScanIo(p) => exists|k: int|
                0 <= k < step.len() && (#[trigger] step[k]) is Fail && step[k]->Fail_path == p@
                    && (forall|j: int| 0 <= j < k ==> step[j] is Desc),
            Error::Unimplemented => false,
        }),
    ensures
        (match e {
            Error::DescriptorInvalid(p) => exists|k: int|
                0 <= k < scan_events(node, path).len() && (#[trigger] scan_events(node, path)[k])
                    is Desc && scan_events(node, path)[k]->Desc_path == p@ && !descriptor_ok(
                    scan_events(node, path)[k]->Desc_text,
                ) && (forall|j: int|
                    0 <= j < k ==> scan_events(node, path)[j] is Desc),
            Error::ScanIo(p) => exists|k: int|
                0 <= k < scan_events(node, path).len() && (#[trigger] scan_events(node, path)[k])
                    is Fail && scan_events(node, path)[k]->Fail_path == p@ && (forall|j: int|
                    0 <= j < k ==> scan_events(node, path)[j] is Desc),
            Error::Unimplemented => false,
        }),
{
    let evs = scan_events(node, path);
    match e {
        Error::DescriptorInvalid(p) => {
            let k = choose|k: int|
                0 <= k < step.len() && (#[trigger] step[k]) is Desc && step[k]->Desc_path == p@
                    && !descriptor_ok(step[k]->Desc_text) && (forall|j: int|
                    0 <= j < k ==> step[j] is Desc);
            let kk = done.len() + k;
            assert(evs[kk] == step[k]);
            assert(forall|j: int| 0 <= j < kk ==> evs[j] is Desc) by {
                assert(forall|j: int| 0 <= j < done.len() ==> evs[j] == done[j]);
                assert(forall|j: int|
                    done.len() <= j < kk ==> evs[j] == step[j - done.len()]);
            }
        },
        Error::ScanIo(p) => {
            let k = choose|k: int|
                0 <= k < step.len() && (#[trigger] step[k]) is Fail && step[k]->Fail_path == p@
                    && (forall|j: int| 0 <= j < k ==> step[j] is Desc);
            let kk = done.len() + k;
            assert(evs[kk] == step[k]);
            assert(forall|j: int| 0 <= j < kk ==> evs[j] is Desc) by {
                assert(forall|j: int| 0 <= j < done.len() ==> evs[j] == done[j]);
                assert(forall|j: int|
                    done.len() <= j < kk ==> evs[j] == step[j - done.len()]);
            }
        },
        Error::Unimplemented => {},
    }
}

} // verus!
