//! The shallow listing: from the children of a root to the entries of a scan.

use crate::aggregate::{allocated, allocation, FileMeta};
use crate::classify::{classify, file_type_of};
use crate::filter::FilterPolicy;
use crate::item::{DiskItem, ErrorTag};
use crate::lexical::HIDDEN_MARKER;
use vstd::prelude::*;
use vstd::utf8::encode_utf8;

verus! {

/// What the file system says of a child of the root.
#[derive(Clone, Copy, Debug, PartialEq, Eq, Structural)]
pub struct ChildMeta {
    pub is_directory: bool,
    pub file: FileMeta,
}

/// One child of the root, as it was read.
#[derive(Debug)]
pub struct ChildEntry {
    pub name: String,
    pub path: String,
    /// The child's metadata, or why it could not be read.
    pub meta: Result<ChildMeta, ErrorTag>,
}

/// Whether a name is hidden: it begins with the hidden marker.
pub open spec fn is_hidden(name: Seq<u8>) -> bool {
    name.len() > 0 && name[0] == HIDDEN_MARKER
}

/// Whether `child` appears in the listing: it is not hidden, and the policy
/// does not leave its path out.
pub open spec fn is_listed(child: ChildEntry, policy: FilterPolicy) -> bool {
    !is_hidden(encode_utf8(child.name@)) && !policy.skips(encode_utf8(child.path@))
}

/// The children that appear in the listing under `policy`.
pub open spec fn listed_under(policy: FilterPolicy) -> spec_fn(ChildEntry) -> bool {
    |child: ChildEntry| is_listed(child, policy)
}

/// The entry for `child`. A file has its allocation for a size and a type by
/// its name; a directory has size zero, to be filled in when it has been
/// aggregated; a child whose metadata could not be read has the error's tag
/// and no size.
pub open spec fn item_for(child: ChildEntry) -> DiskItem {
    match child.meta {
        Ok(meta) => DiskItem {
            name: child.name,
            path: child.path,
            size: if meta.is_directory {
                0
            } else {
                allocated(meta.file) as u64
            },
            is_directory: meta.is_directory,
            item_count: 0,
            file_type: if meta.is_directory {
                None
            } else {
                Some(file_type_of(encode_utf8(child.name@)))
            },
            error: None,
        },
        Err(tag) => DiskItem {
            name: child.name,
            path: child.path,
            size: 0,
            is_directory: false,
            item_count: 0,
            file_type: None,
            error: Some(tag),
        },
    }
}

/// The listing of `children` under `policy`: the entries for the children
/// that appear, in the order of the children.
pub open spec fn listing_of(children: Seq<ChildEntry>, policy: FilterPolicy) -> Seq<DiskItem> {
    children.filter(listed_under(policy)).map_values(|child: ChildEntry| item_for(child))
}

/// Whether the name with bytes `name` is hidden.
pub fn hidden(name: &str) -> (hidden: bool)
    ensures
        hidden == is_hidden(encode_utf8(name@)),
{
    let bytes = name.as_bytes();
    bytes.len() > 0 && bytes[0] == HIDDEN_MARKER
}

/// The entry for `child`.
pub fn make_item(child: &ChildEntry) -> (item: DiskItem)
    ensures
        item == item_for(*child),
{
    match &child.meta {
        Ok(meta) => {
            if meta.is_directory {
                DiskItem {
                    name: child.name.clone(),
                    path: child.path.clone(),
                    size: 0,
                    is_directory: true,
                    item_count: 0,
                    file_type: None,
                    error: None,
                }
            } else {
                DiskItem {
                    name: child.name.clone(),
                    path: child.path.clone(),
                    size: allocation(&meta.file),
                    is_directory: false,
                    item_count: 0,
                    file_type: Some(classify(child.name.as_str())),
                    error: None,
                }
            }
        },
        Err(tag) => DiskItem {
            name: child.name.clone(),
            path: child.path.clone(),
            size: 0,
            is_directory: false,
            item_count: 0,
            file_type: None,
            error: Some(*tag),
        },
    }
}

/// The listing of `children` under `policy`.
pub fn list_children(children: &Vec<ChildEntry>, policy: FilterPolicy) -> (items: Vec<DiskItem>)
    ensures
        items@ == listing_of(children@, policy),
{
    let mut items: Vec<DiskItem> = Vec::new();
    let mut i: usize = 0;
    proof {
        reveal(Seq::filter);
        assert(children@.subrange(0, 0) =~= Seq::<ChildEntry>::empty());
        assert(items@ =~= listing_of(children@.subrange(0, 0), policy));
    }
    while i < children.len()
        invariant
            i <= children.len(),
            items@ == listing_of(children@.subrange(0, i as int), policy),
        decreases children.len() - i,
    {
        let child = &children[i];
        proof {
            reveal(Seq::filter);
            let before = children@.subrange(0, i as int);
            let next = children@.subrange(0, i + 1);
            assert(next.drop_last() =~= before);
            assert(next.last() == *child);
            let kept = before.filter(listed_under(policy));
            if is_listed(*child, policy) {
                assert(next.filter(listed_under(policy)) == kept.push(*child));
                assert(listing_of(next, policy) =~= listing_of(before, policy).push(
                    item_for(*child),
                ));
            } else {
                assert(next.filter(listed_under(policy)) == kept);
            }
        }
        if !hidden(child.name.as_str()) && !policy.should_skip(child.path.as_str()) {
            items.push(make_item(child));
        }
        i += 1;
    }
    proof {
        assert(children@.subrange(0, children@.len() as int) =~= children@);
    }
    items
}

} // verus!
