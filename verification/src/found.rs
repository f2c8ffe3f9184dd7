//! What a search offers to the user: the records of the ranking that still
//! exist on disk, each with its branch, and beside them the directory of the
//! host or of the owner where the keyword names one.

use crate::models::{Repo, RepoView};
use crate::order::{compare, Rel};
use crate::text::{push_str, str_chars, string_of, trim, trim_bounds};
use vstd::prelude::*;

verus! {

/// A directory that a search offers, with the branch that is checked out
/// there; the branch is empty for a directory that is no working directory.
#[derive(Debug)]
pub struct FoundItem {
    pub file_path: String,
    pub branch: String,
}

/// The mathematical value of a `FoundItem`.
pub struct FoundItemView {
    pub file_path: Seq<char>,
    pub branch: Seq<char>,
}

impl View for FoundItem {
    type V = FoundItemView;

    open spec fn view(&self) -> FoundItemView {
        FoundItemView { file_path: self.file_path@, branch: self.branch@ }
    }
}

impl Clone for FoundItem {
    fn clone(&self) -> (r: FoundItem)
        ensures
            r@ == self@,
    {
        FoundItem { file_path: self.file_path.clone(), branch: self.branch.clone() }
    }
}

impl FoundItemView {
    /// How the item is shown: the path, and the branch where there is one.
    pub open spec fn label(self) -> Seq<char> {
        if trim(self.branch).len() == 0 {
            self.file_path
        } else {
            self.file_path + " [branch:"@ + self.branch + "]"@
        }
    }
}

impl FoundItem {
    /// How the item is shown: `path`, or `path [branch:name]`.
    pub fn label(&self) -> (r: String)
        ensures
            r@ == self@.label(),
    {
        let branch = str_chars(self.branch.as_str());
        let (lo, hi) = trim_bounds(&branch);
        if lo == hi {
            self.file_path.clone()
        } else {
            let mut out = str_chars(self.file_path.as_str());
            push_str(&mut out, " [branch:");
            push_str(&mut out, self.branch.as_str());
            push_str(&mut out, "]");
            string_of(&out)
        }
    }
}

/// A record of the ranking with what was found out about its path.
#[derive(Debug)]
pub struct Probe {
    /// The record.
    pub repo: Repo,
    /// Whether the path of the record exists.
    pub exists: bool,
    /// The branch that is checked out at the path.
    pub branch: String,
}

/// The mathematical value of a `Probe`.
pub struct ProbeView {
    pub repo: RepoView,
    pub exists: bool,
    pub branch: Seq<char>,
}

impl View for Probe {
    type V = ProbeView;

    open spec fn view(&self) -> ProbeView {
        ProbeView { repo: self.repo@, exists: self.exists, branch: self.branch@ }
    }
}

/// The values of a vector of probes.
pub open spec fn probe_views(v: Seq<Probe>) -> Seq<ProbeView> {
    Seq::new(v.len(), |i: int| v[i]@)
}

/// The values of a vector of found items.
pub open spec fn item_views(v: Seq<FoundItem>) -> Seq<FoundItemView> {
    Seq::new(v.len(), |i: int| v[i]@)
}

/// Whether `items` offers the path `path`.
pub open spec fn offers(items: Seq<FoundItemView>, path: Seq<char>) -> bool {
    exists|i: int| 0 <= i < items.len() && (#[trigger] items[i]).file_path == path
}

/// `items` with `item` at its end, unless its path is offered already.
pub open spec fn offer(items: Seq<FoundItemView>, item: FoundItemView) -> Seq<FoundItemView> {
    if offers(items, item.file_path) {
        items
    } else {
        items.push(item)
    }
}

/// What `items` becomes by the probe `p`: nothing is added for a path that
/// does not exist; for one that exists the path is offered with its branch,
/// then the directory of the host where the keyword is the host, then the
/// directory of the owner where the keyword is the owner.
pub open spec fn offer_probe(
    items: Seq<FoundItemView>,
    p: ProbeView,
    keyword: Seq<char>,
) -> Seq<FoundItemView> {
    if !p.exists {
        items
    } else {
        let a = offer(items, FoundItemView { file_path: p.repo.full_path, branch: p.branch });
        let b = if p.repo.host == keyword {
            offer(a, FoundItemView { file_path: p.repo.host_dir(), branch: Seq::empty() })
        } else {
            a
        };
        if p.repo.owner == keyword {
            offer(b, FoundItemView { file_path: p.repo.owner_dir(), branch: Seq::empty() })
        } else {
            b
        }
    }
}

/// The items that a search for `keyword` offers for the probes of its ranking,
/// each path once, in the order in which the probes bring them.
pub open spec fn items_of(probes: Seq<ProbeView>, keyword: Seq<char>) -> Seq<FoundItemView>
    decreases probes.len(),
{
    if probes.len() == 0 {
        Seq::empty()
    } else {
        offer_probe(items_of(probes.drop_last(), keyword), probes.last(), keyword)
    }
}

/// The store is stale where the path of some probe does not exist.
pub open spec fn is_stale(probes: Seq<ProbeView>) -> bool {
    exists|i: int| 0 <= i < probes.len() && !(#[trigger] probes[i]).exists
}

/// What a search offers.
#[derive(Debug)]
pub struct Offer {
    /// The directories to choose from.
    pub items: Vec<FoundItem>,
    /// Whether a record of the ranking has no directory any more, so that the
    /// store is to be synced.
    pub stale: bool,
}

fn is_offered(items: &Vec<FoundItem>, path: &str) -> (r: bool)
    ensures
        r == offers(item_views(items@), path@),
{
    let mut i: usize = 0;
    while i < items.len()
        invariant
            i <= items.len(),
            forall|j: int| 0 <= j < i ==> (#[trigger] item_views(items@)[j]).file_path != path@,
        decreases items.len() - i,
    {
        assert(item_views(items@)[i as int] == items@[i as int]@);
        if compare(items[i].file_path.as_str(), path) == Rel::Same {
            return true;
        }
        i += 1;
    }
    false
}

fn put(items: &mut Vec<FoundItem>, item: FoundItem)
    ensures
        item_views(final(items)@) == offer(item_views(old(items)@), item@),
{
    let ghost before = item_views(items@);
    if !is_offered(items, item.file_path.as_str()) {
        items.push(item);
        assert(item_views(items@) =~= before.push(item@));
    }
}

/// What a search for `keyword` offers for the probes of its ranking: nothing
/// where the ranking is empty; otherwise the items that `items_of` gives, and
/// whether the store is stale.
pub fn find_keyword(keyword: &str, probes: &Vec<Probe>) -> (r: Option<Offer>)
    ensures
        r is None == (probes.len() == 0),
        r matches Some(offer) ==> item_views(offer.items@) == items_of(
            probe_views(probes@),
            keyword@,
        ) && offer.stale == is_stale(probe_views(probes@)),
{
    if probes.len() == 0 {
        return None;
    }
    let ghost all = probe_views(probes@);
    let mut items: Vec<FoundItem> = Vec::new();
    let mut stale = false;
    let mut i: usize = 0;
    assert(all.take(0) =~= Seq::<ProbeView>::empty());
    assert(item_views(items@) =~= Seq::<FoundItemView>::empty());
    while i < probes.len()
        invariant
            i <= probes.len(),
            all == probe_views(probes@),
            item_views(items@) == items_of(all.take(i as int), keyword@),
            stale == is_stale(all.take(i as int)),
        decreases probes.len() - i,
    {
        let p = &probes[i];
        proof {
            assert(all.take(i + 1).drop_last() =~= all.take(i as int));
            assert(all.take(i + 1).last() == p@);
            if is_stale(all.take(i as int)) {
                let k = choose|k: int|
                    0 <= k < all.take(i as int).len() && !(#[trigger] all.take(i as int)[k]).exists;
                assert(!all.take(i + 1)[k].exists);
            }
            if is_stale(all.take(i + 1)) && p.exists {
                let k = choose|k: int|
                    0 <= k < all.take(i + 1).len() && !(#[trigger] all.take(i + 1)[k]).exists;
                assert(!all.take(i as int)[k].exists);
            }
        }
        if p.exists {
            put(&mut items, FoundItem { file_path: p.repo.full_path.clone(), branch: p.branch.clone() });
            if compare(p.repo.host.as_str(), keyword) == Rel::Same {
                put(&mut items, FoundItem { file_path: p.repo.host_fs_path(), branch: String::new() });
            }
            if compare(p.repo.owner.as_str(), keyword) == Rel::Same {
                put(&mut items, FoundItem { file_path: p.repo.owner_fs_path(), branch: String::new() });
            }
        } else {
            assert(!all.take(i + 1)[i as int].exists);
            stale = true;
        }
        i += 1;
    }
    assert(all.take(i as int) =~= all);
    Some(Offer { items, stale })
}

} // verus!
