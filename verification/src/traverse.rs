//! The filesystem traversal engine, over snapshot trees.
//!
//! For every visited node a lightweight record is built (name, kind, path,
//! depth; the other fields defaulted). Conditions on `path` alone decide,
//! on that lightweight record, whether the whole subtree is skipped; a
//! narrow heuristic — a non-negated LIKE condition on `path` whose pattern
//! holds the conventional build-folder text `%target/%` — suppresses
//! recursion altogether. A node that passes every condition pays for its
//! full metadata and is emitted. Depth conditions take part only in that
//! full evaluation, never in pruning.

use vstd::prelude::*;
use crate::evaluate::{
    FileRecV, file_view, cond_holds_v, conds_hold_v, evaluate_single_condition,
    evaluate_conditions,
};
use crate::models::{Condition, FileInfo, extension_spec, seg_count};
use crate::size::{format_size_spec, format_size};
use crate::text::{
    contains_seq, oct_str, fmt_octal, chars_of, string_of, subvec, push_all, str_eq, find_from,
};

verus! {

/// One node of a filesystem snapshot: its own metadata and its entries.
#[derive(Debug)]
pub struct FsNode {
    pub name: String,
    pub is_dir: bool,
    /// Modification time, in whole seconds since the Unix epoch.
    pub modified: i64,
    /// Permission bits.
    pub mode: u32,
    /// Size in bytes.
    pub size: u64,
    pub entries: Vec<FsNode>,
}

/// The relative path of a child: the parent's path, a separator, and the
/// child's name (no separator below the root).
pub open spec fn child_rel(rel: Seq<char>, name: Seq<char>) -> Seq<char> {
    if rel.len() == 0 {
        name
    } else {
        rel + seq!['/'] + name
    }
}

/// The lightweight record of a node: expensive fields at their defaults.
pub open spec fn light_v(name: Seq<char>, is_dir: bool, rel: Seq<char>) -> FileRecV {
    FileRecV {
        name,
        file_type: if is_dir {
            "directory"@
        } else {
            "file"@
        },
        modified: 0,
        permissions: "0"@,
        size: "0 B"@,
        path: rel,
        depth: seg_count(rel),
        extension: extension_spec(name, is_dir),
    }
}

/// The upgraded record of a node: real modification time, permission bits
/// in octal, and formatted size.
pub open spec fn full_v(node: FsNode, rel: Seq<char>) -> FileRecV {
    FileRecV {
        name: node.name@,
        file_type: if node.is_dir {
            "directory"@
        } else {
            "file"@
        },
        modified: node.modified as int,
        permissions: oct_str(node.mode as nat),
        size: format_size_spec(node.size as nat),
        path: rel,
        depth: seg_count(rel),
        extension: extension_spec(node.name@, node.is_dir),
    }
}

/// A condition on `path` rules the lightweight record out: the whole
/// subtree is skipped.
pub open spec fn path_skip(l: FileRecV, conds: Seq<Condition>) -> bool {
    exists|i: int|
        0 <= i < conds.len() && (#[trigger] conds[i]).field@ == "path"@ && !cond_holds_v(
            l,
            conds[i],
        )
}

/// The pruning heuristic: some non-negated LIKE condition on `path`
/// carries the conventional build-folder text, and recursion stops.
pub open spec fn prune_recursion(conds: Seq<Condition>) -> bool {
    exists|i: int|
        {
            &&& 0 <= i < conds.len()
            &&& (#[trigger] conds[i]).field@ == "path"@
            &&& conds[i].operator@ == "LIKE"@
            &&& !conds[i].negated
            &&& contains_seq(conds[i].value@, "%target/%"@)
        }
}

/// Everything the traversal emits below `node` (whose relative path is
/// `rel`): nothing when a path condition skips the subtree; otherwise the
/// node's own upgraded record when every condition passes, followed by
/// whatever its entries emit — unless the node is no directory or the
/// pruning heuristic fires.
pub open spec fn traverse_spec(node: FsNode, rel: Seq<char>, conds: Seq<Condition>) -> Seq<
    FileRecV,
>
    decreases node, 1int, 0int,
{
    let l = light_v(node.name@, node.is_dir, rel);
    if path_skip(l, conds) {
        Seq::empty()
    } else {
        (if conds_hold_v(l, conds) {
            seq![full_v(node, rel)]
        } else {
            Seq::empty()
        }) + (if node.is_dir && !prune_recursion(conds) {
            traverse_kids(node, 0, rel, conds)
        } else {
            Seq::empty()
        })
    }
}

/// What the entries of `node` from index `i` on emit.
pub open spec fn traverse_kids(node: FsNode, i: int, rel: Seq<char>, conds: Seq<Condition>) -> Seq<
    FileRecV,
>
    decreases node, 0int, node.entries@.len() - i,
{
    if i < 0 || i >= node.entries@.len() {
        Seq::empty()
    } else {
        traverse_spec(node.entries@[i], child_rel(rel, node.entries@[i].name@), conds)
            + traverse_kids(node, i + 1, rel, conds)
    }
}

/// The views of a list of file records.
pub open spec fn views_of(s: Seq<FileInfo>) -> Seq<FileRecV> {
    s.map_values(|f: FileInfo| file_view(f))
}

proof fn lemma_seg_count_le_len(s: Seq<char>)
    ensures
        seg_count(s) <= s.len(),
    decreases s.len(),
{
    if s.len() > 0 {
        lemma_seg_count_le_len(s.drop_last());
    }
}

/// Builds the lightweight record of a node.
fn make_light(node: &FsNode, rel: &Vec<char>) -> (r: FileInfo)
    ensures
        file_view(r) == light_v(node.name@, node.is_dir, rel@),
{
    let ft: &str = if node.is_dir {
        "directory"
    } else {
        "file"
    };
    let ext = FileInfo::extract_extension(node.name.as_str(), node.is_dir);
    let rl = rel.len();
    let depth = crate::models::path_depth(string_of(rel).as_str());
    proof {
        lemma_seg_count_le_len(rel@);
        assert(seg_count(rel@) <= rl);
        assert(depth == seg_count(rel@));
    }
    let r = FileInfo {
        name: node.name.clone(),
        file_type: ft.to_owned(),
        modified_date: 0,
        permissions: "0".to_owned(),
        size: "0 B".to_owned(),
        path: string_of(rel),
        depth,
        extension: ext,
    };
    proof {
        match r.extension {
            Option::Some(ref e) => {
                assert(extension_spec(node.name@, node.is_dir) == Some(e@));
            },
            Option::None => {
                assert(extension_spec(node.name@, node.is_dir) is None);
            },
        }
        assert(file_view(r) == light_v(node.name@, node.is_dir, rel@));
    }
    r
}

/// Builds the upgraded record of a node: the one-shot upgrade that only
/// records passing every condition pay for.
fn make_full(node: &FsNode, rel: &Vec<char>) -> (r: FileInfo)
    ensures
        file_view(r) == full_v(*node, rel@),
{
    let ft: &str = if node.is_dir {
        "directory"
    } else {
        "file"
    };
    let ext = FileInfo::extract_extension(node.name.as_str(), node.is_dir);
    let rl = rel.len();
    let depth = crate::models::path_depth(string_of(rel).as_str());
    proof {
        lemma_seg_count_le_len(rel@);
        assert(seg_count(rel@) <= rl);
        assert(depth == seg_count(rel@));
    }
    let r = FileInfo {
        name: node.name.clone(),
        file_type: ft.to_owned(),
        modified_date: node.modified,
        permissions: string_of(&fmt_octal(node.mode)),
        size: format_size(node.size),
        path: string_of(rel),
        depth,
        extension: ext,
    };
    proof {
        match r.extension {
            Option::Some(ref e) => {
                assert(extension_spec(node.name@, node.is_dir) == Some(e@));
            },
            Option::None => {
                assert(extension_spec(node.name@, node.is_dir) is None);
            },
        }
        assert(file_view(r) == full_v(*node, rel@));
    }
    r
}

/// Whether a path condition rules the lightweight record out.
fn path_skip_exec(light: &FileInfo, conditions: &Vec<Condition>) -> (r: bool)
    ensures
        r == path_skip(file_view(*light), conditions@),
{
    let mut i: usize = 0;
    while i < conditions.len()
        invariant
            i <= conditions@.len(),
            forall|j: int|
                0 <= j < i ==> ((#[trigger] conditions@[j]).field@ == "path"@ ==> cond_holds_v(
                    file_view(*light),
                    conditions@[j],
                )),
        decreases conditions@.len() - i,
    {
        if str_eq(conditions[i].field.as_str(), "path") {
            let result = evaluate_single_condition(light, &conditions[i]);
            let final_result = if conditions[i].negated {
                !result
            } else {
                result
            };
            if !final_result {
                return true;
            }
        }
        i = i + 1;
    }
    false
}

/// Whether the pruning heuristic suppresses recursion.
fn prune_recursion_exec(conditions: &Vec<Condition>) -> (r: bool)
    ensures
        r == prune_recursion(conditions@),
{
    let marker = chars_of("%target/%");
    let mut i: usize = 0;
    while i < conditions.len()
        invariant
            i <= conditions@.len(),
            marker@ == "%target/%"@,
            forall|j: int|
                0 <= j < i ==> !((#[trigger] conditions@[j]).field@ == "path"@
                    && conditions@[j].operator@ == "LIKE"@ && !conditions@[j].negated
                    && contains_seq(conditions@[j].value@, "%target/%"@)),
        decreases conditions@.len() - i,
    {
        if str_eq(conditions[i].field.as_str(), "path") && str_eq(
            conditions[i].operator.as_str(),
            "LIKE",
        ) && !conditions[i].negated {
            let vc = chars_of(conditions[i].value.as_str());
            if find_from(&vc, &marker, 0).is_some() {
                return true;
            }
        }
        i = i + 1;
    }
    false
}

/// Walks the snapshot below `node`, whose path relative to the traversal
/// root is `rel`, and returns the records of every entry that passes all
/// conditions, upgraded to full metadata.
pub fn collect_files_model(node: &FsNode, rel: &Vec<char>, conditions: &Vec<Condition>) -> (r:
    Vec<FileInfo>)
    ensures
        views_of(r@) == traverse_spec(*node, rel@, conditions@),
    decreases *node, 1int, 0int,
{
    broadcast use vstd::std_specs::vec::axiom_vec_index_decreases;

    let mut out: Vec<FileInfo> = Vec::new();
    let light = make_light(node, rel);
    if path_skip_exec(&light, conditions) {
        proof {
            assert(views_of(out@) =~= traverse_spec(*node, rel@, conditions@));
        }
        return out;
    }
    if evaluate_conditions(&light, conditions) {
        proof {
            assert(conds_hold_v(light_v(node.name@, node.is_dir, rel@), conditions@));
        }
        out.push(make_full(node, rel));
    }
    let ghost self_part = if conds_hold_v(light_v(node.name@, node.is_dir, rel@), conditions@) {
        seq![full_v(*node, rel@)]
    } else {
        Seq::<FileRecV>::empty()
    };
    proof {
        assert(views_of(out@) =~= self_part);
    }
    if node.is_dir && !prune_recursion_exec(conditions) {
        let mut j: usize = 0;
        while j < node.entries.len()
            invariant
                j <= node.entries@.len(),
                views_of(out@) =~= self_part + kids_prefix(*node, j as int, rel@, conditions@),
                !path_skip(light_v(node.name@, node.is_dir, rel@), conditions@),
                !prune_recursion(conditions@),
                node.is_dir,
                self_part == if conds_hold_v(
                    light_v(node.name@, node.is_dir, rel@),
                    conditions@,
                ) {
                    seq![full_v(*node, rel@)]
                } else {
                    Seq::<FileRecV>::empty()
                },
            decreases node.entries@.len() - j,
        {
            let child = &node.entries[j];
            let mut crel: Vec<char> = subvec(rel, 0, rel.len());
            if rel.len() > 0 {
                crel.push('/');
            }
            let cname = chars_of(child.name.as_str());
            push_all(&mut crel, &cname);
            proof {
                assert(crel@ =~= child_rel(rel@, node.entries@[j as int].name@));
                assert(rel@.subrange(0, rel@.len() as int) =~= rel@);
            }
            let mut sub = collect_files_model(child, &crel, conditions);
            let ghost pre = out@;
            let ghost subv = sub@;
            out.append(&mut sub);
            proof {
                assert(views_of(out@) =~= views_of(pre) + views_of(subv));
                lemma_kids_prefix_step(*node, j as int, rel@, conditions@);
                assert(views_of(out@) =~= self_part + kids_prefix(
                    *node,
                    j + 1,
                    rel@,
                    conditions@,
                ));
            }
            j = j + 1;
        }
        proof {
            lemma_kids_prefix_full(*node, rel@, conditions@);
            assert(views_of(out@) =~= traverse_spec(*node, rel@, conditions@));
        }
    } else {
        proof {
            assert(views_of(out@) =~= traverse_spec(*node, rel@, conditions@));
        }
    }
    out
}

/// What the first `j` entries of `node` emit.
pub open spec fn kids_prefix(node: FsNode, j: int, rel: Seq<char>, conds: Seq<Condition>) -> Seq<
    FileRecV,
>
    decreases node, 0int, j,
{
    if j <= 0 || j > node.entries@.len() {
        Seq::empty()
    } else {
        kids_prefix(node, j - 1, rel, conds) + traverse_spec(
            node.entries@[j - 1],
            child_rel(rel, node.entries@[j - 1].name@),
            conds,
        )
    }
}

proof fn lemma_kids_prefix_step(node: FsNode, j: int, rel: Seq<char>, conds: Seq<Condition>)
    requires
        0 <= j < node.entries@.len(),
    ensures
        kids_prefix(node, j + 1, rel, conds) == kids_prefix(node, j, rel, conds) + traverse_spec(
            node.entries@[j],
            child_rel(rel, node.entries@[j].name@),
            conds,
        ),
{
}

proof fn lemma_kids_prefix_full(node: FsNode, rel: Seq<char>, conds: Seq<Condition>)
    ensures
        kids_prefix(node, node.entries@.len() as int, rel, conds) == traverse_kids(
            node,
            0,
            rel,
            conds,
        ),
{
    lemma_kids_join(node, 0, rel, conds);
}

proof fn lemma_kids_join(node: FsNode, i: int, rel: Seq<char>, conds: Seq<Condition>)
    requires
        0 <= i <= node.entries@.len(),
    ensures
        kids_prefix(node, node.entries@.len() as int, rel, conds) == kids_prefix(
            node,
            i,
            rel,
            conds,
        ) + traverse_kids(node, i, rel, conds),
    decreases node.entries@.len() - i,
{
    let n = node.entries@.len() as int;
    if i == n {
        assert(kids_prefix(node, n, rel, conds) + Seq::<FileRecV>::empty() =~= kids_prefix(
            node,
            n,
            rel,
            conds,
        ));
    } else {
        lemma_kids_join(node, i + 1, rel, conds);
        lemma_kids_prefix_step(node, i, rel, conds);
        let child = traverse_spec(node.entries@[i], child_rel(rel, node.entries@[i].name@), conds);
        assert((kids_prefix(node, i, rel, conds) + child) + traverse_kids(node, i + 1, rel, conds)
            =~= kids_prefix(node, i, rel, conds) + (child + traverse_kids(node, i + 1, rel, conds)));
    }
}

// ---------------------------------------------------------------------------
// Laws of the traversal
// ---------------------------------------------------------------------------

/// The full enumeration of a snapshot: every node below `node`, upgraded,
/// with no filtering at all.
pub open spec fn enumerate_spec(node: FsNode, rel: Seq<char>) -> Seq<FileRecV>
    decreases node, 1int, 0int,
{
    seq![full_v(node, rel)] + (if node.is_dir {
        enumerate_kids(node, 0, rel)
    } else {
        Seq::empty()
    })
}

/// The full enumeration of the entries of `node` from index `i` on.
pub open spec fn enumerate_kids(node: FsNode, i: int, rel: Seq<char>) -> Seq<FileRecV>
    decreases node, 0int, node.entries@.len() - i,
{
    if i < 0 || i >= node.entries@.len() {
        Seq::empty()
    } else {
        enumerate_spec(node.entries@[i], child_rel(rel, node.entries@[i].name@)) + enumerate_kids(
            node,
            i + 1,
            rel,
        )
    }
}

/// Traversal completeness: under an empty condition list the traversal
/// emits exactly the full recursive enumeration of the snapshot — no
/// record is lost and none appears twice beyond what the tree itself
/// holds.
pub proof fn lemma_traverse_complete(node: FsNode, rel: Seq<char>)
    ensures
        traverse_spec(node, rel, Seq::empty()) == enumerate_spec(node, rel),
    decreases node, 1int, 0int,
{
    let conds = Seq::<Condition>::empty();
    let l = light_v(node.name@, node.is_dir, rel);
    assert(!path_skip(l, conds));
    assert(conds_hold_v(l, conds));
    assert(!prune_recursion(conds));
    if node.is_dir {
        lemma_traverse_complete_kids(node, 0, rel);
    }
    assert(traverse_spec(node, rel, conds) =~= enumerate_spec(node, rel));
}

proof fn lemma_traverse_complete_kids(node: FsNode, i: int, rel: Seq<char>)
    ensures
        traverse_kids(node, i, rel, Seq::empty()) == enumerate_kids(node, i, rel),
    decreases node, 0int, node.entries@.len() - i,
{
    if 0 <= i < node.entries@.len() {
        lemma_traverse_complete(node.entries@[i], child_rel(rel, node.entries@[i].name@));
        lemma_traverse_complete_kids(node, i + 1, rel);
    }
}

/// Pruning: when the conditions hold a negated LIKE exclusion on `path`
/// and a node's own relative path matches the excluded pattern, the
/// traversal emits nothing at or below that node — the subtree is never
/// entered.
pub proof fn lemma_prune_excluded_subtree(
    node: FsNode,
    rel: Seq<char>,
    conds: Seq<Condition>,
    i: int,
)
    requires
        0 <= i < conds.len(),
        conds[i].field@ == "path"@,
        conds[i].operator@ == "LIKE"@,
        conds[i].negated,
        crate::pattern::like_matches(rel, conds[i].value@),
    ensures
        traverse_spec(node, rel, conds) == Seq::<FileRecV>::empty(),
{
    let l = light_v(node.name@, node.is_dir, rel);
    reveal_strlit("name");
    reveal_strlit("type");
    reveal_strlit("permissions");
    reveal_strlit("path");
    reveal_strlit("IS");
    reveal_strlit("LIKE");
    assert("path"@ != "name"@ && "path"@ != "type"@ && "path"@ != "permissions"@) by {
        assert("path"@[0] == 'p' && "name"@[0] == 'n' && "type"@[0] == 't');
        assert("permissions"@.len() == 11 && "path"@.len() == 4);
    };
    assert("LIKE"@ != "IS"@) by {
        assert("LIKE"@.len() == 4 && "IS"@.len() == 2);
    };
    assert(crate::evaluate::eval_file_cond_v(l, conds[i]));
    assert(!cond_holds_v(l, conds[i]));
    assert(path_skip(l, conds));
}

} // verus!
