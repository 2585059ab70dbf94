//! The recursive traversal that applies the cipher to a tree of paths.
//!
//! The traversal works on an in-memory picture of a filesystem subtree: a
//! [`Node`] holds what one visit reads of a real path — its name, its
//! contents if it is a readable regular file, or the way it fails. One
//! shared cipher is threaded through the whole walk, so each file's bytes
//! are transformed at the keystream position the files before it left
//! behind; visiting the same tree in the same order with a freshly derived
//! cipher therefore inverts an earlier run, and any other order does not.
//! The embedding application mirrors a real directory tree into [`Node`]
//! values as it walks it and carries the transformed contents back.

use vstd::prelude::*;

use crate::cryptor::{Cipher, KEYSTREAM_LIMIT, create_cipher, key_of, keystream_xor, nonce_of};
use crate::report::{
    EncryptionError, EncryptionErrorView, EncryptionResult, EncryptionResultView,
    FinalEncryptionResult, ProcessingError,
};

verus! {

/// What visiting one filesystem path finds.
#[derive(Debug)]
pub enum Node {
    /// A regular file with its contents, readable and writable.
    File { path: String, content: Vec<u8> },
    /// A regular file that cannot be opened for reading.
    UnreadableFile { path: String },
    /// A regular file that cannot be opened for writing.
    UnwritableFile { path: String },
    /// A directory whose entries enumerate successfully, in enumeration
    /// order.
    Dir { path: String, entries: Vec<Node> },
    /// A directory whose entries cannot be enumerated; nothing below it is
    /// ever visited.
    UnreadableDir { path: String },
    /// A symbolic link, or a path that does not exist.
    Other { path: String },
}

/// The mathematical value of a [`Node`].
pub enum NodeView {
    File { path: Seq<char>, content: Seq<u8> },
    UnreadableFile { path: Seq<char> },
    UnwritableFile { path: Seq<char> },
    Dir { path: Seq<char>, entries: Seq<NodeView> },
    UnreadableDir { path: Seq<char> },
    Other { path: Seq<char> },
}

impl View for Node {
    type V = NodeView;

    open spec fn view(&self) -> NodeView
        decreases self,
    {
        match self {
            Node::File { path, content } => NodeView::File { path: path@, content: content@ },
            Node::UnreadableFile { path } => NodeView::UnreadableFile { path: path@ },
            Node::UnwritableFile { path } => NodeView::UnwritableFile { path: path@ },
            Node::Dir { path, entries } => NodeView::Dir {
                path: path@,
                entries: view_entries(entries@),
            },
            Node::UnreadableDir { path } => NodeView::UnreadableDir { path: path@ },
            Node::Other { path } => NodeView::Other { path: path@ },
        }
    }
}

/// The views of a sequence of nodes, element for element.
pub closed spec fn view_entries(entries: Seq<Node>) -> Seq<NodeView>
    decreases entries,
{
    if entries.len() == 0 {
        Seq::empty()
    } else {
        view_entries(entries.drop_last()).push(entries.last()@)
    }
}

/// `view_entries` is the element-wise view.
pub proof fn lemma_view_entries(entries: Seq<Node>)
    ensures
        view_entries(entries).len() == entries.len(),
        forall|i: int| 0 <= i < entries.len() ==> view_entries(entries)[i] == entries[i]@,
    decreases entries,
{
    if entries.len() > 0 {
        lemma_view_entries(entries.drop_last());
        assert(view_entries(entries) == view_entries(entries.drop_last()).push(entries.last()@));
        assert forall|i: int| 0 <= i < entries.len() implies view_entries(entries)[i]
            == entries[i]@ by {
            if i < entries.len() - 1 {
                assert(view_entries(entries)[i] == view_entries(entries.drop_last())[i]);
                assert(entries.drop_last()[i] == entries[i]);
            } else {
                assert(view_entries(entries)[i] == entries.last()@);
            }
        }
    }
}

/// How many content bytes the walk feeds to the cipher below this node:
/// the lengths of the readable files, in traversal order.
pub open spec fn node_bytes(node: NodeView) -> int
    decreases node,
{
    match node {
        NodeView::File { content, .. } => content.len() as int,
        NodeView::Dir { entries, .. } => entries_bytes(entries),
        _ => 0,
    }
}

/// Total content bytes below a sequence of sibling nodes.
pub open spec fn entries_bytes(entries: Seq<NodeView>) -> int
    decreases entries,
{
    if entries.len() == 0 {
        0
    } else {
        entries_bytes(entries.drop_last()) + node_bytes(entries.last())
    }
}

pub proof fn lemma_node_bytes_nonneg(node: NodeView)
    ensures
        node_bytes(node) >= 0,
    decreases node,
{
    match node {
        NodeView::Dir { entries, .. } => lemma_entries_bytes_nonneg(entries),
        _ => {},
    }
}

pub proof fn lemma_entries_bytes_nonneg(entries: Seq<NodeView>)
    ensures
        entries_bytes(entries) >= 0,
    decreases entries,
{
    if entries.len() > 0 {
        lemma_entries_bytes_nonneg(entries.drop_last());
        lemma_node_bytes_nonneg(entries.last());
    }
}

/// Splitting a sequence of siblings splits its byte count.
pub proof fn lemma_entries_bytes_split(entries: Seq<NodeView>, i: int)
    requires
        0 <= i <= entries.len(),
    ensures
        entries_bytes(entries) == entries_bytes(entries.take(i)) + entries_bytes(entries.skip(i)),
    decreases entries.len(),
{
    if i == entries.len() {
        assert(entries.take(i) =~= entries);
        assert(entries.skip(i).len() == 0);
    } else {
        lemma_entries_bytes_split(entries.drop_last(), i);
        assert(entries.take(i) =~= entries.drop_last().take(i));
        assert(entries.skip(i).drop_last() =~= entries.drop_last().skip(i));
        assert(entries.skip(i).last() == entries.last());
        assert(entries.skip(i).len() > 0);
    }
}

/// The tree after the walk: every readable file's contents XORed against
/// the keystream, at the position the files before it (in traversal order,
/// starting from `pos`) left the cipher at; everything else unchanged.
pub open spec fn transformed_node(key: Seq<u8>, nonce: Seq<u8>, pos: int, node: NodeView) -> NodeView
    decreases node,
{
    match node {
        NodeView::File { path, content } => NodeView::File {
            path,
            content: keystream_xor(key, nonce, pos, content),
        },
        NodeView::Dir { path, entries } => NodeView::Dir {
            path,
            entries: transformed_entries(key, nonce, pos, entries),
        },
        _ => node,
    }
}

/// Sibling nodes after the walk, threading the keystream position from
/// each node into the next.
pub open spec fn transformed_entries(
    key: Seq<u8>,
    nonce: Seq<u8>,
    pos: int,
    entries: Seq<NodeView>,
) -> Seq<NodeView>
    decreases entries,
{
    if entries.len() == 0 {
        Seq::empty()
    } else {
        transformed_entries(key, nonce, pos, entries.drop_last()).push(
            transformed_node(
                key,
                nonce,
                pos + entries_bytes(entries.drop_last()),
                entries.last(),
            ),
        )
    }
}

/// The successfully processed paths below a node, in traversal order.
pub open spec fn node_oks(node: NodeView) -> Seq<Seq<char>>
    decreases node,
{
    match node {
        NodeView::File { path, .. } => seq![path],
        NodeView::Dir { entries, .. } => entries_oks(entries),
        _ => Seq::empty(),
    }
}

pub open spec fn entries_oks(entries: Seq<NodeView>) -> Seq<Seq<char>>
    decreases entries,
{
    if entries.len() == 0 {
        Seq::empty()
    } else {
        entries_oks(entries.drop_last()) + node_oks(entries.last())
    }
}

/// The failures below a node, in traversal order: one `FileRead` or
/// `FileWrite` failure with zero bytes written for a file that cannot be
/// opened, one `DirRead` failure for a directory that cannot be
/// enumerated, and one `Path` failure for a symbolic link or missing path.
pub open spec fn node_errs(node: NodeView) -> Seq<EncryptionErrorView>
    decreases node,
{
    match node {
        NodeView::File { .. } => Seq::empty(),
        NodeView::UnreadableFile { path } => seq![
            (EncryptionErrorView::FileRead { bytes_written: 0, path }),
        ],
        NodeView::UnwritableFile { path } => seq![
            (EncryptionErrorView::FileWrite { bytes_written: 0, path }),
        ],
        NodeView::Dir { entries, .. } => entries_errs(entries),
        NodeView::UnreadableDir { path } => seq![(EncryptionErrorView::DirRead { path })],
        NodeView::Other { path } => seq![(EncryptionErrorView::Path { path })],
    }
}

pub open spec fn entries_errs(entries: Seq<NodeView>) -> Seq<EncryptionErrorView>
    decreases entries,
{
    if entries.len() == 0 {
        Seq::empty()
    } else {
        entries_errs(entries.drop_last()) + node_errs(entries.last())
    }
}

/// Walks one node with the shared cipher: transforms every readable file
/// below it in traversal order, records one outcome per visited entry, and
/// leaves the cipher's keystream position advanced by exactly the content
/// bytes it transformed. The node itself is not changed; the transformed
/// picture of it is returned beside the report.
#[verifier::loop_isolation(false)]
pub fn encrypt_path(cipher: &mut Cipher, node: &Node) -> (res: (Node, FinalEncryptionResult))
    requires
        old(cipher).pos() + node_bytes(node@) <= KEYSTREAM_LIMIT,
    ensures
        final(cipher).key() == old(cipher).key(),
        final(cipher).nonce() == old(cipher).nonce(),
        final(cipher).pos() == old(cipher).pos() + node_bytes(node@),
        res.0@ == transformed_node(
            old(cipher).key(),
            old(cipher).nonce(),
            old(cipher).pos(),
            node@,
        ),
        res.1@.oks == node_oks(node@),
        res.1@.errs == node_errs(node@),
    decreases node,
{
    match node {
        Node::File { path, content } => {
            let out_content = cipher.transform(vstd::slice::slice_to_vec(content.as_slice()));
            let out_node = Node::File { path: path.clone(), content: out_content };
            let mut report = FinalEncryptionResult::default();
            report.push_and_log(EncryptionResult::Processed(path.clone()));
            proof {
                assert(report@.oks =~= node_oks(node@));
                assert(report@.errs =~= node_errs(node@));
            }
            (out_node, report)
        },
        Node::UnreadableFile { path } => {
            let mut report = FinalEncryptionResult::default();
            report.push_and_log(
                EncryptionResult::Error(
                    EncryptionError::FileReadError { bytes_written: 0, path: path.clone() },
                ),
            );
            proof {
                assert(report@.oks =~= node_oks(node@));
                assert(report@.errs =~= node_errs(node@));
            }
            (Node::UnreadableFile { path: path.clone() }, report)
        },
        Node::UnwritableFile { path } => {
            let mut report = FinalEncryptionResult::default();
            report.push_and_log(
                EncryptionResult::Error(
                    EncryptionError::FileWriteError { bytes_written: 0, path: path.clone() },
                ),
            );
            proof {
                assert(report@.oks =~= node_oks(node@));
                assert(report@.errs =~= node_errs(node@));
            }
            (Node::UnwritableFile { path: path.clone() }, report)
        },
        Node::UnreadableDir { path } => {
            let mut report = FinalEncryptionResult::default();
            report.push_and_log(
                EncryptionResult::Error(EncryptionError::DirReadError { path: path.clone() }),
            );
            proof {
                assert(report@.oks =~= node_oks(node@));
                assert(report@.errs =~= node_errs(node@));
            }
            (Node::UnreadableDir { path: path.clone() }, report)
        },
        Node::Other { path } => {
            let mut report = FinalEncryptionResult::default();
            report.push_and_log(
                EncryptionResult::Error(EncryptionError::PathError { path: path.clone() }),
            );
            proof {
                assert(report@.oks =~= node_oks(node@));
                assert(report@.errs =~= node_errs(node@));
            }
            (Node::Other { path: path.clone() }, report)
        },
        Node::Dir { path, entries } => {
            proof {
                assert(decreases_to!(*node => node->Dir_entries));
            }
            let (out_entries, report) = encrypt_paths(cipher, entries);
            (Node::Dir { path: path.clone(), entries: out_entries }, report)
        },
    }
}

/// Walks sibling nodes in order with one shared cipher, merging their
/// outcomes into one report: the loop that a run performs over its root
/// paths, and that a directory performs over its entries.
#[verifier::loop_isolation(false)]
pub fn encrypt_paths(cipher: &mut Cipher, entries: &Vec<Node>) -> (res: (
    Vec<Node>,
    FinalEncryptionResult,
))
    requires
        old(cipher).pos() + entries_bytes(view_entries(entries@)) <= KEYSTREAM_LIMIT,
    ensures
        final(cipher).key() == old(cipher).key(),
        final(cipher).nonce() == old(cipher).nonce(),
        final(cipher).pos() == old(cipher).pos() + entries_bytes(view_entries(entries@)),
        view_entries(res.0@) == transformed_entries(
            old(cipher).key(),
            old(cipher).nonce(),
            old(cipher).pos(),
            view_entries(entries@),
        ),
        res.1@.oks == entries_oks(view_entries(entries@)),
        res.1@.errs == entries_errs(view_entries(entries@)),
    decreases *entries,
{
    let ghost key = old(cipher).key();
    let ghost nonce = old(cipher).nonce();
    let ghost pos0 = old(cipher).pos();
    let ghost vs = view_entries(entries@);
    proof {
        lemma_view_entries(entries@);
    }
    let mut out_entries: Vec<Node> = Vec::new();
    let mut report = FinalEncryptionResult::default();
    proof {
        assert(vs.take(0) =~= Seq::<NodeView>::empty());
        assert(view_entries(out_entries@) =~= transformed_entries(key, nonce, pos0, vs.take(0)));
    }
    let mut i: usize = 0;
    while i < entries.len()
        invariant
            i <= entries.len(),
            cipher.key() == key,
            cipher.nonce() == nonce,
            cipher.pos() == pos0 + entries_bytes(vs.take(i as int)),
            view_entries(out_entries@) == transformed_entries(key, nonce, pos0, vs.take(i as int)),
            report@.oks == entries_oks(vs.take(i as int)),
            report@.errs == entries_errs(vs.take(i as int)),
        decreases entries.len() - i,
    {
        proof {
            lemma_entries_bytes_split(vs, i + 1);
            lemma_entries_bytes_nonneg(vs.skip(i + 1));
            assert(vs.take(i + 1).drop_last() =~= vs.take(i as int));
            assert(vs.take(i + 1).last() == vs[i as int]);
            lemma_node_bytes_nonneg(vs[i as int]);
            assert(decreases_to!(*entries => entries[i as int]));
        }
        let ghost out_entries_before = out_entries@;
        let (child_node, child_report) = encrypt_path(cipher, &entries[i]);
        out_entries.push(child_node);
        report.extend(child_report);
        proof {
            assert(out_entries@.drop_last() =~= out_entries_before);
            assert(view_entries(out_entries@) == view_entries(out_entries_before).push(
                out_entries@.last()@,
            ));
            assert(view_entries(out_entries@) =~= transformed_entries(
                key,
                nonce,
                pos0,
                vs.take(i + 1),
            ));
            assert(report@.oks =~= entries_oks(vs.take(i + 1)));
            assert(report@.errs =~= entries_errs(vs.take(i + 1)));
        }
        i = i + 1;
    }
    proof {
        assert(vs.take(entries@.len() as int) =~= vs);
    }
    (out_entries, report)
}

/// One whole run over an in-memory picture of the root paths: derives one
/// cipher from the password and walks every root with it, in the order
/// given. The same password over the returned trees, in the same order,
/// inverts the run.
pub fn process(password: &[u8], roots: &Vec<Node>) -> (res: (Vec<Node>, FinalEncryptionResult))
    requires
        entries_bytes(view_entries(roots@)) <= KEYSTREAM_LIMIT,
    ensures
        view_entries(res.0@) == transformed_entries(
            key_of(password@),
            nonce_of(password@),
            0,
            view_entries(roots@),
        ),
        res.1@.oks == entries_oks(view_entries(roots@)),
        res.1@.errs == entries_errs(view_entries(roots@)),
{
    let mut cipher = create_cipher(password);
    encrypt_paths(&mut cipher, roots)
}

/// Maps the result of rewriting one file in place to that file's outcome:
/// the path on success; on failure, the mid-stream error wrapped together
/// with the path.
pub fn file_outcome(path: String, result: Result<usize, ProcessingError>) -> (outcome:
    EncryptionResult)
    ensures
        (result matches Ok(_) ==> outcome@ == EncryptionResultView::Processed(path@)),
        (result matches Err(e) ==> outcome@ == EncryptionResultView::Error(
            (EncryptionErrorView::Processing { source: e@, path: path@ }),
        )),
{
    match result {
        Ok(_) => EncryptionResult::Processed(path),
        Err(e) => EncryptionResult::Error(EncryptionError::ProcessingError { source: e, path }),
    }
}

/// How many regular files (readable or not, writable or not) stand below
/// a node: each produces exactly one file-derived outcome.
pub open spec fn count_files(node: NodeView) -> int
    decreases node,
{
    match node {
        NodeView::File { .. } => 1,
        NodeView::UnreadableFile { .. } => 1,
        NodeView::UnwritableFile { .. } => 1,
        NodeView::Dir { entries, .. } => entries_count_files(entries),
        _ => 0,
    }
}

pub open spec fn entries_count_files(entries: Seq<NodeView>) -> int
    decreases entries,
{
    if entries.len() == 0 {
        0
    } else {
        entries_count_files(entries.drop_last()) + count_files(entries.last())
    }
}

/// How many unreadable directories stand below a node. The children of an
/// unreadable directory are never visited, so nothing below one counts.
pub open spec fn count_unreadable_dirs(node: NodeView) -> int
    decreases node,
{
    match node {
        NodeView::Dir { entries, .. } => entries_count_unreadable_dirs(entries),
        NodeView::UnreadableDir { .. } => 1,
        _ => 0,
    }
}

pub open spec fn entries_count_unreadable_dirs(entries: Seq<NodeView>) -> int
    decreases entries,
{
    if entries.len() == 0 {
        0
    } else {
        entries_count_unreadable_dirs(entries.drop_last()) + count_unreadable_dirs(entries.last())
    }
}

/// How many symbolic links or missing paths stand below a node.
pub open spec fn count_others(node: NodeView) -> int
    decreases node,
{
    match node {
        NodeView::Dir { entries, .. } => entries_count_others(entries),
        NodeView::Other { .. } => 1,
        _ => 0,
    }
}

pub open spec fn entries_count_others(entries: Seq<NodeView>) -> int
    decreases entries,
{
    if entries.len() == 0 {
        0
    } else {
        entries_count_others(entries.drop_last()) + count_others(entries.last())
    }
}

/// Whether a failure is file-derived: it came from opening or rewriting a
/// regular file.
pub open spec fn is_file_failure(error: EncryptionErrorView) -> bool {
    error is FileRead || error is FileWrite || error is Processing
}

/// How many failures in a list are file-derived.
pub open spec fn count_file_errs(errs: Seq<EncryptionErrorView>) -> int
    decreases errs,
{
    if errs.len() == 0 {
        0
    } else {
        count_file_errs(errs.drop_last()) + if is_file_failure(errs.last()) {
            1int
        } else {
            0int
        }
    }
}

/// How many failures in a list are directory-enumeration failures.
pub open spec fn count_dir_errs(errs: Seq<EncryptionErrorView>) -> int
    decreases errs,
{
    if errs.len() == 0 {
        0
    } else {
        count_dir_errs(errs.drop_last()) + if errs.last() is DirRead {
            1int
        } else {
            0int
        }
    }
}

/// How many failures in a list are path-classification failures.
pub open spec fn count_path_errs(errs: Seq<EncryptionErrorView>) -> int
    decreases errs,
{
    if errs.len() == 0 {
        0
    } else {
        count_path_errs(errs.drop_last()) + if errs.last() is Path {
            1int
        } else {
            0int
        }
    }
}

/// The three failure counters distribute over concatenation.
proof fn lemma_err_counts_concat(left: Seq<EncryptionErrorView>, right: Seq<EncryptionErrorView>)
    ensures
        count_file_errs(left + right) == count_file_errs(left) + count_file_errs(right),
        count_dir_errs(left + right) == count_dir_errs(left) + count_dir_errs(right),
        count_path_errs(left + right) == count_path_errs(left) + count_path_errs(right),
    decreases right.len(),
{
    if right.len() == 0 {
        assert(left + right =~= left);
    } else {
        lemma_err_counts_concat(left, right.drop_last());
        assert((left + right).drop_last() =~= left + right.drop_last());
        assert((left + right).last() == right.last());
        assert((left + right).len() > 0);
    }
}

/// Traversal completeness: walking a tree with `f` regular files, `d`
/// unreadable directories and `s` symbolic links or missing paths yields
/// exactly `f` file-derived outcomes (successes plus file failures),
/// exactly `d` directory-enumeration failures, and exactly `s` path
/// failures — no visited entry is dropped or duplicated.
pub proof fn lemma_walk_completeness(node: NodeView)
    ensures
        node_oks(node).len() + count_file_errs(node_errs(node)) == count_files(node),
        count_dir_errs(node_errs(node)) == count_unreadable_dirs(node),
        count_path_errs(node_errs(node)) == count_others(node),
    decreases node,
{
    match node {
        NodeView::Dir { entries, .. } => {
            lemma_entries_walk_completeness(entries);
            assert(node_errs(node) == entries_errs(entries));
        },
        _ => {
            let errs = node_errs(node);
            if errs.len() > 0 {
                assert(errs.drop_last() =~= Seq::<EncryptionErrorView>::empty());
                assert(count_file_errs(errs.drop_last()) == 0);
                assert(count_dir_errs(errs.drop_last()) == 0);
                assert(count_path_errs(errs.drop_last()) == 0);
            }
        },
    }
}

/// [`lemma_walk_completeness`] for a list of sibling nodes.
pub proof fn lemma_entries_walk_completeness(entries: Seq<NodeView>)
    ensures
        entries_oks(entries).len() + count_file_errs(entries_errs(entries))
            == entries_count_files(entries),
        count_dir_errs(entries_errs(entries)) == entries_count_unreadable_dirs(entries),
        count_path_errs(entries_errs(entries)) == entries_count_others(entries),
    decreases entries,
{
    if entries.len() > 0 {
        lemma_entries_walk_completeness(entries.drop_last());
        lemma_walk_completeness(entries.last());
        lemma_err_counts_concat(entries_errs(entries.drop_last()), node_errs(entries.last()));
    }
}

/// The content bytes below one node, as the walk will feed them to the
/// cipher: `None` when the total does not fit in a `u64`.
#[verifier::loop_isolation(false)]
pub fn measure_node(node: &Node) -> (total: Option<u64>)
    ensures
        (total matches Some(t) ==> t == node_bytes(node@)),
        (total is None ==> node_bytes(node@) > u64::MAX),
    decreases node,
{
    match node {
        Node::File { content, .. } => Some(content.len() as u64),
        Node::Dir { path, entries } => {
            proof {
                assert(decreases_to!(*node => node->Dir_entries));
            }
            measure_entries(entries)
        },
        _ => Some(0),
    }
}

/// The content bytes below a list of sibling nodes: `None` when the total
/// does not fit in a `u64`.
#[verifier::loop_isolation(false)]
pub fn measure_entries(entries: &Vec<Node>) -> (total: Option<u64>)
    ensures
        (total matches Some(t) ==> t == entries_bytes(view_entries(entries@))),
        (total is None ==> entries_bytes(view_entries(entries@)) > u64::MAX),
    decreases *entries,
{
    let ghost vs = view_entries(entries@);
    proof {
        lemma_view_entries(entries@);
        assert(vs.take(0) =~= Seq::<NodeView>::empty());
    }
    let mut sum: u64 = 0;
    let mut i: usize = 0;
    while i < entries.len()
        invariant
            i <= entries.len(),
            sum == entries_bytes(vs.take(i as int)),
        decreases entries.len() - i,
    {
        proof {
            lemma_entries_bytes_split(vs, i + 1);
            lemma_entries_bytes_nonneg(vs.skip(i + 1));
            assert(vs.take(i + 1).drop_last() =~= vs.take(i as int));
            assert(vs.take(i + 1).last() == vs[i as int]);
            assert(decreases_to!(*entries => entries[i as int]));
        }
        let child_total = match measure_node(&entries[i]) {
            Some(child_total) => child_total,
            None => {
                return None;
            },
        };
        sum = match sum.checked_add(child_total) {
            Some(next) => next,
            None => {
                return None;
            },
        };
        i = i + 1;
    }
    proof {
        assert(vs.take(entries@.len() as int) =~= vs);
    }
    Some(sum)
}

/// Like [`process`], but checks the keystream bound at run time instead of
/// asking it of the caller: `None` exactly when the roots hold more
/// content than one keystream may transform, and the run is refused
/// before anything is touched.
pub fn try_process(password: &[u8], roots: &Vec<Node>) -> (res: Option<(
    Vec<Node>,
    FinalEncryptionResult,
)>)
    ensures
        entries_bytes(view_entries(roots@)) <= KEYSTREAM_LIMIT ==> (res matches Some(r)
            && view_entries(r.0@) == transformed_entries(
            key_of(password@),
            nonce_of(password@),
            0,
            view_entries(roots@),
        ) && r.1@.oks == entries_oks(view_entries(roots@)) && r.1@.errs == entries_errs(
            view_entries(roots@),
        )),
        entries_bytes(view_entries(roots@)) > KEYSTREAM_LIMIT ==> res is None,
{
    match measure_entries(roots) {
        Some(total) => {
            if total <= KEYSTREAM_LIMIT {
                Some(process(password, roots))
            } else {
                None
            }
        },
        None => None,
    }
}

/// The walk preserves every file's length, so a tree holds as many content
/// bytes after a walk as before it.
pub proof fn lemma_transformed_node_bytes(key: Seq<u8>, nonce: Seq<u8>, pos: int, node: NodeView)
    ensures
        node_bytes(transformed_node(key, nonce, pos, node)) == node_bytes(node),
    decreases node,
{
    match node {
        NodeView::Dir { entries, .. } => {
            lemma_transformed_entries_bytes(key, nonce, pos, entries);
        },
        _ => {},
    }
}

/// [`lemma_transformed_node_bytes`] for a list of sibling nodes.
pub proof fn lemma_transformed_entries_bytes(
    key: Seq<u8>,
    nonce: Seq<u8>,
    pos: int,
    entries: Seq<NodeView>,
)
    ensures
        entries_bytes(transformed_entries(key, nonce, pos, entries)) == entries_bytes(entries),
    decreases entries,
{
    if entries.len() > 0 {
        lemma_transformed_entries_bytes(key, nonce, pos, entries.drop_last());
        lemma_transformed_node_bytes(
            key,
            nonce,
            pos + entries_bytes(entries.drop_last()),
            entries.last(),
        );
        let out = transformed_entries(key, nonce, pos, entries);
        assert(out.drop_last() =~= transformed_entries(key, nonce, pos, entries.drop_last()));
    }
}

/// The walk changes no path and no outcome: a transformed tree reports the
/// same successes and the same failures as the tree it came from. In
/// particular a second run over an encrypted tree reports the same
/// successes as the first.
pub proof fn lemma_transformed_node_outcomes(
    key: Seq<u8>,
    nonce: Seq<u8>,
    pos: int,
    node: NodeView,
)
    ensures
        node_oks(transformed_node(key, nonce, pos, node)) == node_oks(node),
        node_errs(transformed_node(key, nonce, pos, node)) == node_errs(node),
    decreases node,
{
    match node {
        NodeView::Dir { entries, .. } => {
            lemma_transformed_entries_outcomes(key, nonce, pos, entries);
        },
        _ => {},
    }
}

/// [`lemma_transformed_node_outcomes`] for a list of sibling nodes.
pub proof fn lemma_transformed_entries_outcomes(
    key: Seq<u8>,
    nonce: Seq<u8>,
    pos: int,
    entries: Seq<NodeView>,
)
    ensures
        entries_oks(transformed_entries(key, nonce, pos, entries)) == entries_oks(entries),
        entries_errs(transformed_entries(key, nonce, pos, entries)) == entries_errs(entries),
    decreases entries,
{
    if entries.len() > 0 {
        lemma_transformed_entries_outcomes(key, nonce, pos, entries.drop_last());
        lemma_transformed_node_outcomes(
            key,
            nonce,
            pos + entries_bytes(entries.drop_last()),
            entries.last(),
        );
        let out = transformed_entries(key, nonce, pos, entries);
        assert(out.drop_last() =~= transformed_entries(key, nonce, pos, entries.drop_last()));
    }
}

/// Round trip at the tree level: walking a tree and then walking the
/// result, both from the same keystream position of the same key and
/// nonce — as two runs with the same password and the same root list do —
/// restores every file's contents.
pub proof fn lemma_tree_round_trip(key: Seq<u8>, nonce: Seq<u8>, pos: int, node: NodeView)
    ensures
        transformed_node(key, nonce, pos, transformed_node(key, nonce, pos, node)) == node,
    decreases node,
{
    match node {
        NodeView::File { path, content } => {
            crate::cryptor::lemma_keystream_xor_involution(key, nonce, pos, content);
        },
        NodeView::Dir { entries, .. } => {
            lemma_entries_round_trip(key, nonce, pos, entries);
        },
        _ => {},
    }
}

/// [`lemma_tree_round_trip`] for a list of sibling nodes.
pub proof fn lemma_entries_round_trip(
    key: Seq<u8>,
    nonce: Seq<u8>,
    pos: int,
    entries: Seq<NodeView>,
)
    ensures
        transformed_entries(key, nonce, pos, transformed_entries(key, nonce, pos, entries))
            == entries,
    decreases entries,
{
    if entries.len() > 0 {
        let tail_pos = pos + entries_bytes(entries.drop_last());
        lemma_entries_round_trip(key, nonce, pos, entries.drop_last());
        lemma_tree_round_trip(key, nonce, tail_pos, entries.last());
        lemma_transformed_entries_bytes(key, nonce, pos, entries.drop_last());
        let once = transformed_entries(key, nonce, pos, entries);
        assert(once.drop_last() =~= transformed_entries(key, nonce, pos, entries.drop_last()));
        assert(transformed_entries(key, nonce, pos, once) =~= entries);
    }
}

} // verus!
