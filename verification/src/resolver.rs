//! Merging the tiers of a package into one mapping from destination to source.
//!
//! A package offers files in up to three kinds of tier: one for the host, one
//! per active tag, and a global one. Each file is known by its path relative
//! to the root of its tier's file tree, and would be linked at that same
//! relative path under the target directory. Where several tiers offer the
//! same relative path, the tier that comes first in the order host, tags as
//! supplied, global provides the source.

use crate::path::{path_models, FilePath, PathModel};
use vstd::prelude::*;

verus! {

/// One tier of a package: the root of its file tree and what was found under
/// it, each entry by its path relative to the root.
#[derive(Debug, PartialEq)]
pub struct Tier {
    pub root: FilePath,
    pub files: Vec<FilePath>,
    pub dirs: Vec<FilePath>,
}

/// A tier in specifications.
pub struct TierModel {
    pub root: PathModel,
    pub files: Seq<PathModel>,
    pub dirs: Seq<PathModel>,
}

impl View for Tier {
    type V = TierModel;

    open spec fn view(&self) -> TierModel {
        TierModel {
            root: self.root@,
            files: path_models(self.files@),
            dirs: path_models(self.dirs@),
        }
    }
}

/// The views of a list of tiers.
pub open spec fn tier_models(tiers: Seq<Tier>) -> Seq<TierModel> {
    Seq::new(tiers.len(), |i: int| tiers[i]@)
}

/// The paths of `listing` relative to `root`, where every one of them lies
/// under `root`.
pub open spec fn relative_to(root: PathModel, listing: Seq<PathModel>) -> Seq<PathModel> {
    Seq::new(listing.len(), |i: int| listing[i].skip(root.len() as int))
}

/// Whether every path of `listing` lies under `root`.
pub open spec fn all_under(root: PathModel, listing: Seq<PathModel>) -> bool {
    forall|i: int| 0 <= i < listing.len() ==> root.is_prefix_of(#[trigger] listing[i])
}

/// Relativizes a listing of full paths; `None` if one of them is not under
/// `root`.
fn relativize(root: &FilePath, listing: &Vec<FilePath>) -> (relative: Option<Vec<FilePath>>)
    ensures
        relative is Some <==> all_under(root@, path_models(listing@)),
        relative matches Some(r) ==> path_models(r@) == relative_to(
            root@,
            path_models(listing@),
        ),
{
    let mut out: Vec<FilePath> = Vec::new();
    let mut i: usize = 0;
    while i < listing.len()
        invariant
            i <= listing.len(),
            out.len() == i,
            forall|k: int| 0 <= k < i ==> root@.is_prefix_of(#[trigger] path_models(listing@)[k]),
            forall|k: int| 0 <= k < i ==> out[k]@ == listing[k]@.skip(root@.len() as int),
        decreases listing.len() - i,
    {
        match listing[i].strip_prefix(root) {
            Some(rest) => {
                assert(path_models(listing@)[i as int] == listing[i as int]@);
                out.push(rest);
            },
            None => {
                assert(!root@.is_prefix_of(path_models(listing@)[i as int]));
                return None;
            },
        }
        i += 1;
    }
    assert(path_models(out@) =~= relative_to(root@, path_models(listing@)));
    Some(out)
}

impl Tier {
    /// A tier whose file tree does not exist or could not be read: it offers
    /// nothing.
    pub fn absent(root: FilePath) -> (tier: Tier)
        ensures
            tier@ == (TierModel { root: root@, files: Seq::empty(), dirs: Seq::empty() }),
    {
        let tier = Tier { root, files: Vec::new(), dirs: Vec::new() };
        assert(tier@.files =~= Seq::empty());
        assert(tier@.dirs =~= Seq::empty());
        tier
    }

    /// A tier from the full paths of the files and directories found under
    /// `root`. `None` if one of them does not lie under `root`.
    pub fn from_listing(root: FilePath, files: &Vec<FilePath>, dirs: &Vec<FilePath>) -> (tier:
        Option<Tier>)
        ensures
            tier is Some <==> all_under(root@, path_models(files@)) && all_under(
                root@,
                path_models(dirs@),
            ),
            tier matches Some(t) ==> t@ == (TierModel {
                root: root@,
                files: relative_to(root@, path_models(files@)),
                dirs: relative_to(root@, path_models(dirs@)),
            }),
    {
        match relativize(&root, files) {
            None => None,
            Some(rel_files) => match relativize(&root, dirs) {
                None => None,
                Some(rel_dirs) => Some(Tier { root, files: rel_files, dirs: rel_dirs }),
            },
        }
    }
}

/// A link to make: `destination`, in the target directory, is to point at
/// `source`, in the repository.
#[derive(Debug, PartialEq)]
pub struct Link {
    pub destination: FilePath,
    pub source: FilePath,
}

/// A link in specifications.
pub struct LinkModel {
    pub destination: PathModel,
    pub source: PathModel,
}

impl View for Link {
    type V = LinkModel;

    open spec fn view(&self) -> LinkModel {
        LinkModel { destination: self.destination@, source: self.source@ }
    }
}

/// The views of a list of links.
pub open spec fn link_models(links: Seq<Link>) -> Seq<LinkModel> {
    Seq::new(links.len(), |i: int| links[i]@)
}

/// The mapping that a list of links stands for. Should a destination occur
/// twice, its first entry counts.
pub open spec fn as_map(links: Seq<LinkModel>) -> Map<PathModel, PathModel>
    decreases links.len(),
{
    if links.len() == 0 {
        Map::empty()
    } else {
        let earlier = as_map(links.drop_last());
        let last = links.last();
        if earlier.contains_key(last.destination) {
            earlier
        } else {
            earlier.insert(last.destination, last.source)
        }
    }
}

/// Whether no destination occurs twice in a list of links.
pub open spec fn distinct_destinations(links: Seq<LinkModel>) -> bool {
    forall|i: int, j: int|
        0 <= i < j < links.len() ==> (#[trigger] links[i]).destination != (
        #[trigger] links[j]).destination
}

/// What one tier alone asks for: each of its files, linked at its relative
/// path under `target`.
pub open spec fn tier_links(target: PathModel, tier: TierModel) -> Map<PathModel, PathModel> {
    Map::new(
        |d: PathModel| target.is_prefix_of(d) && tier.files.contains(d.skip(target.len() as int)),
        |d: PathModel| tier.root + d.skip(target.len() as int),
    )
}

/// What a list of tiers asks for, a tier that stands earlier in the list
/// overriding every later one.
pub open spec fn layered_links(target: PathModel, tiers: Seq<TierModel>) -> Map<
    PathModel,
    PathModel,
>
    decreases tiers.len(),
{
    if tiers.len() == 0 {
        Map::empty()
    } else {
        tier_links(target, tiers.last()).union_prefer_right(
            layered_links(target, tiers.drop_last()),
        )
    }
}

/// The order of precedence for files: the host tier, then the tag tiers in
/// the order in which the tags were supplied, then the global tier.
pub open spec fn precedence(host: TierModel, tags: Seq<TierModel>, global: TierModel) -> Seq<
    TierModel,
> {
    seq![host] + tags + seq![global]
}

/// A destination under `target` is `target` followed by its relative part.
pub proof fn lemma_join_split(target: PathModel, rel: PathModel)
    ensures
        target.is_prefix_of(target + rel),
        (target + rel).skip(target.len() as int) == rel,
        forall|d: PathModel|
            target.is_prefix_of(d) && d.skip(target.len() as int) == rel ==> d == target + rel,
{
    assert((target + rel).subrange(0, target.len() as int) =~= target);
    assert((target + rel).skip(target.len() as int) =~= rel);
    assert forall|d: PathModel|
        target.is_prefix_of(d) && d.skip(target.len() as int) == rel implies d == target + rel by {
        assert(d =~= target + rel);
    }
}

/// Whether some entry of `links` is for the destination `d`.
pub open spec fn has_destination(links: Seq<LinkModel>, d: PathModel) -> bool {
    exists|i: int| 0 <= i < links.len() && (#[trigger] links[i]).destination == d
}

/// The mapping of a list of links has exactly the destinations of its
/// entries.
pub proof fn lemma_as_map_domain(links: Seq<LinkModel>, d: PathModel)
    ensures
        as_map(links).contains_key(d) <==> has_destination(links, d),
    decreases links.len(),
{
    if links.len() > 0 {
        let earlier = links.drop_last();
        let last = links.last();
        lemma_as_map_domain(earlier, d);
        if as_map(links).contains_key(d) {
            if as_map(earlier).contains_key(d) {
                let i = choose|i: int|
                    0 <= i < earlier.len() && (#[trigger] earlier[i]).destination == d;
                assert(links[i] == earlier[i]);
            } else {
                assert(links[links.len() - 1].destination == d);
            }
        }
        if has_destination(links, d) {
            let i = choose|i: int| 0 <= i < links.len() && (#[trigger] links[i]).destination == d;
            if i < earlier.len() {
                assert(earlier[i] == links[i]);
            }
        }
    }
}

/// The first entry for a destination gives its source.
pub proof fn lemma_as_map_first(links: Seq<LinkModel>, i: int)
    requires
        0 <= i < links.len(),
        forall|k: int| 0 <= k < i ==> (#[trigger] links[k]).destination != links[i].destination,
    ensures
        as_map(links).contains_key(links[i].destination),
        as_map(links)[links[i].destination] == links[i].source,
    decreases links.len(),
{
    let earlier = links.drop_last();
    let last = links.last();
    if i < earlier.len() {
        assert(earlier[i] == links[i]);
        assert forall|k: int| 0 <= k < i implies (#[trigger] earlier[k]).destination
            != earlier[i].destination by {
            assert(earlier[k] == links[k]);
        }
        lemma_as_map_first(earlier, i);
    } else {
        lemma_as_map_domain(earlier, last.destination);
        if has_destination(earlier, last.destination) {
            let k = choose|k: int|
                0 <= k < earlier.len() && (#[trigger] earlier[k]).destination == last.destination;
            assert(links[k] == earlier[k]);
        }
    }
}

/// The resolved mapping of a package: which source each destination is to
/// point at, one entry per destination.
#[derive(Debug)]
pub struct ResolvedMapping {
    pub links: Vec<Link>,
}

impl View for ResolvedMapping {
    type V = Map<PathModel, PathModel>;

    open spec fn view(&self) -> Map<PathModel, PathModel> {
        as_map(link_models(self.links@))
    }
}

impl ResolvedMapping {
    /// Whether the mapping holds at most one entry per destination.
    pub open spec fn well_formed(&self) -> bool {
        distinct_destinations(link_models(self.links@))
    }

    /// The mapping with no entries.
    pub fn new() -> (mapping: ResolvedMapping)
        ensures
            mapping@ == Map::<PathModel, PathModel>::empty(),
            mapping.links@.len() == 0,
            mapping.well_formed(),
    {
        ResolvedMapping { links: Vec::new() }
    }

    /// Where the first entry for `destination` stands, if there is one.
    pub fn position(&self, destination: &FilePath) -> (found: Option<usize>)
        ensures
            found is Some <==> self@.contains_key(destination@),
            found matches Some(i) ==> i < self.links.len() && self.links[i as int].destination@
                == destination@ && self.links[i as int].source@ == self@[destination@],
    {
        let ghost models = link_models(self.links@);
        let mut i: usize = 0;
        while i < self.links.len()
            invariant
                i <= self.links.len(),
                models == link_models(self.links@),
                forall|k: int| 0 <= k < i ==> (#[trigger] models[k]).destination != destination@,
            decreases self.links.len() - i,
        {
            if self.links[i].destination == *destination {
                proof {
                    assert(models[i as int].destination == destination@);
                    lemma_as_map_first(models, i as int);
                }
                return Some(i);
            }
            assert(models[i as int].destination != destination@);
            i += 1;
        }
        proof {
            lemma_as_map_domain(models, destination@);
        }
        None
    }

    /// The source that `destination` is to point at, if the mapping has it.
    pub fn get(&self, destination: &FilePath) -> (source: Option<&FilePath>)
        ensures
            source is Some <==> self@.contains_key(destination@),
            source matches Some(s) ==> s@ == self@[destination@],
    {
        match self.position(destination) {
            Some(i) => Some(&self.links[i].source),
            None => None,
        }
    }

    /// How many destinations the mapping has.
    pub fn len(&self) -> (n: usize)
        ensures
            n == self.links@.len(),
    {
        self.links.len()
    }
}

/// A tier cut down to the first `n` of its files.
pub open spec fn first_files(tier: TierModel, n: int) -> TierModel {
    TierModel { root: tier.root, files: tier.files.take(n), dirs: tier.dirs }
}

/// Taking one more file of a tier into account adds its destination, unless
/// the mapping has that destination already.
proof fn lemma_one_more_file(
    target: PathModel,
    tier: TierModel,
    n: int,
    before: Map<PathModel, PathModel>,
)
    requires
        0 <= n < tier.files.len(),
    ensures
        ({
            let d = target + tier.files[n];
            let so_far = tier_links(target, first_files(tier, n)).union_prefer_right(before);
            let next = tier_links(target, first_files(tier, n + 1)).union_prefer_right(before);
            next == if so_far.contains_key(d) {
                so_far
            } else {
                so_far.insert(d, tier.root + tier.files[n])
            }
        }),
{
    let rel = tier.files[n];
    let d = target + rel;
    let fewer = tier.files.take(n);
    let more = tier.files.take(n + 1);
    let so_far = tier_links(target, first_files(tier, n)).union_prefer_right(before);
    let next = tier_links(target, first_files(tier, n + 1)).union_prefer_right(before);
    let expected = if so_far.contains_key(d) {
        so_far
    } else {
        so_far.insert(d, tier.root + rel)
    };
    lemma_join_split(target, rel);
    assert(more[n] == rel);
    assert forall|r: PathModel| more.contains(r) <==> fewer.contains(r) || r == rel by {
        if more.contains(r) {
            let k = choose|k: int| 0 <= k < more.len() && more[k] == r;
            if k < n {
                assert(fewer[k] == r);
            }
        }
        if fewer.contains(r) {
            let k = choose|k: int| 0 <= k < fewer.len() && fewer[k] == r;
            assert(more[k] == r);
        }
    }
    assert forall|k: PathModel| next.contains_key(k) <==> expected.contains_key(k) by {
        let r = k.skip(target.len() as int);
        assert(more.contains(r) <==> fewer.contains(r) || r == rel);
    }
    assert forall|k: PathModel| next.contains_key(k) implies next[k] == expected[k] by {
        let r = k.skip(target.len() as int);
        assert(more.contains(r) <==> fewer.contains(r) || r == rel);
    }
    assert(next =~= expected);
}

impl ResolvedMapping {
    /// Adds the files of one tier, each at its relative path under `target`,
    /// wherever the mapping has no entry for that destination yet.
    fn absorb(&mut self, target: &FilePath, tier: &Tier)
        requires
            old(self).well_formed(),
        ensures
            final(self)@ == tier_links(target@, tier@).union_prefer_right(old(self)@),
            final(self).well_formed(),
    {
        let ghost before = self@;
        let mut i: usize = 0;
        assert(tier_links(target@, first_files(tier@, 0)).union_prefer_right(before) =~= before) by {
            assert(first_files(tier@, 0).files.len() == 0);
        }
        while i < tier.files.len()
            invariant
                i <= tier.files.len(),
                self.well_formed(),
                self@ == tier_links(target@, first_files(tier@, i as int)).union_prefer_right(
                    before,
                ),
            decreases tier.files.len() - i,
        {
            let destination = target.join(&tier.files[i]);
            let source = tier.root.join(&tier.files[i]);
            let ghost models = link_models(self.links@);
            proof {
                lemma_one_more_file(target@, tier@, i as int, before);
                assert(tier@.files[i as int] == tier.files[i as int]@);
            }
            if self.position(&destination).is_none() {
                let link = Link { destination, source };
                self.links.push(link);
                proof {
                    let extended = link_models(self.links@);
                    assert(extended.drop_last() =~= models);
                    assert(extended.last() == link@);
                    lemma_as_map_domain(models, link@.destination);
                    assert forall|a: int, b: int| 0 <= a < b < extended.len() implies (
                    #[trigger] extended[a]).destination != (#[trigger] extended[b]).destination by {
                        assert(extended[a] == models[a]);
                        if b < models.len() {
                            assert(extended[b] == models[b]);
                        }
                    }
                }
            }
            i += 1;
        }
        assert(first_files(tier@, tier.files.len() as int) == tier@) by {
            assert(tier@.files.take(tier.files.len() as int) =~= tier@.files);
        }
    }
}

/// Resolves a package: merges its tiers into one mapping from destination to
/// source. The host tier overrides the tag tiers, which override the global
/// tier; among the tag tiers, one that was supplied earlier overrides one that
/// was supplied later.
pub fn resolve_links(target: &FilePath, host: &Tier, tags: &Vec<Tier>, global: &Tier) -> (mapping:
    ResolvedMapping)
    ensures
        mapping@ == layered_links(target@, precedence(host@, tier_models(tags@), global@)),
        mapping.well_formed(),
{
    let ghost tag_models = tier_models(tags@);
    let mut mapping = ResolvedMapping::new();
    mapping.absorb(target, host);
    assert(mapping@ == layered_links(target@, seq![host@] + tag_models.take(0))) by {
        let only = seq![host@] + tag_models.take(0);
        assert(only.last() == host@);
        assert(only.drop_last() =~= Seq::<TierModel>::empty());
        assert(layered_links(target@, only.drop_last()) =~= Map::<PathModel, PathModel>::empty());
    }
    let mut j: usize = 0;
    while j < tags.len()
        invariant
            j <= tags.len(),
            tag_models == tier_models(tags@),
            mapping.well_formed(),
            mapping@ == layered_links(target@, seq![host@] + tag_models.take(j as int)),
        decreases tags.len() - j,
    {
        mapping.absorb(target, &tags[j]);
        proof {
            let shorter = seq![host@] + tag_models.take(j as int);
            let longer = seq![host@] + tag_models.take(j + 1);
            assert(longer.last() == tags[j as int]@);
            assert(longer.drop_last() =~= shorter);
        }
        j += 1;
    }
    mapping.absorb(target, global);
    proof {
        let all = precedence(host@, tag_models, global@);
        assert(all.last() == global@);
        assert(all.drop_last() =~= seq![host@] + tag_models.take(tags.len() as int));
    }
    mapping
}

/// Whether some tier of `tiers` offers a file at the relative path `rel`.
pub open spec fn offered(tiers: Seq<TierModel>, rel: PathModel) -> bool {
    exists|k: int| 0 <= k < tiers.len() && (#[trigger] tiers[k]).files.contains(rel)
}

/// The layered mapping has a destination exactly where some tier offers the
/// file.
pub proof fn lemma_layered_domain(target: PathModel, tiers: Seq<TierModel>, d: PathModel)
    ensures
        layered_links(target, tiers).contains_key(d) <==> target.is_prefix_of(d) && offered(
            tiers,
            d.skip(target.len() as int),
        ),
    decreases tiers.len(),
{
    let rel = d.skip(target.len() as int);
    if tiers.len() > 0 {
        let earlier = tiers.drop_last();
        lemma_layered_domain(target, earlier, d);
        if layered_links(target, tiers).contains_key(d) {
            if layered_links(target, earlier).contains_key(d) {
                let k = choose|k: int|
                    0 <= k < earlier.len() && (#[trigger] earlier[k]).files.contains(rel);
                assert(tiers[k] == earlier[k]);
            } else {
                assert(tiers[tiers.len() - 1].files.contains(rel));
            }
        }
        if target.is_prefix_of(d) && offered(tiers, rel) {
            let k = choose|k: int| 0 <= k < tiers.len() && (#[trigger] tiers[k]).files.contains(rel);
            if k < earlier.len() {
                assert(earlier[k] == tiers[k]);
            }
        }
    }
}

/// Among the tiers that offer a file, the first in the list provides the
/// source.
pub proof fn lemma_first_tier_wins(target: PathModel, tiers: Seq<TierModel>, i: int, rel: PathModel)
    requires
        0 <= i < tiers.len(),
        tiers[i].files.contains(rel),
        forall|k: int| 0 <= k < i ==> !(#[trigger] tiers[k]).files.contains(rel),
    ensures
        layered_links(target, tiers).contains_key(target + rel),
        layered_links(target, tiers)[target + rel] == tiers[i].root + rel,
    decreases tiers.len(),
{
    let earlier = tiers.drop_last();
    let d = target + rel;
    lemma_join_split(target, rel);
    if i < earlier.len() {
        assert(earlier[i] == tiers[i]);
        assert forall|k: int| 0 <= k < i implies !(#[trigger] earlier[k]).files.contains(rel) by {
            assert(earlier[k] == tiers[k]);
        }
        lemma_first_tier_wins(target, earlier, i, rel);
    } else {
        lemma_layered_domain(target, earlier, d);
        if offered(earlier, rel) {
            let k = choose|k: int|
                0 <= k < earlier.len() && (#[trigger] earlier[k]).files.contains(rel);
            assert(tiers[k] == earlier[k]);
        }
    }
}

/// The precedence of files. For a file at the relative path `rel`, the
/// resolved mapping has the destination `target + rel` exactly if some tier
/// offers the file, and its source is the host tier's file if the host tier
/// offers one, else that of the earliest-listed tag tier that offers one, else
/// the global tier's.
pub proof fn lemma_file_precedence(
    target: PathModel,
    host: TierModel,
    tags: Seq<TierModel>,
    global: TierModel,
    rel: PathModel,
)
    ensures
        ({
            let resolved = layered_links(target, precedence(host, tags, global));
            let d = target + rel;
            &&& resolved.contains_key(d) <==> host.files.contains(rel) || offered(tags, rel)
                || global.files.contains(rel)
            &&& host.files.contains(rel) ==> resolved[d] == host.root + rel
            &&& forall|j: int|
                0 <= j < tags.len() && !host.files.contains(rel) && (#[trigger] tags[j]).files.contains(
                    rel,
                ) && (forall|k: int| 0 <= k < j ==> !(#[trigger] tags[k]).files.contains(rel))
                    ==> resolved[d] == tags[j].root + rel
            &&& !host.files.contains(rel) && !offered(tags, rel) && global.files.contains(rel)
                ==> resolved[d] == global.root + rel
        }),
{
    let tiers = precedence(host, tags, global);
    let resolved = layered_links(target, tiers);
    let d = target + rel;
    lemma_join_split(target, rel);
    lemma_layered_domain(target, tiers, d);
    assert(tiers[0] == host);
    assert(tiers[tiers.len() - 1] == global);
    assert forall|j: int| 0 <= j < tags.len() implies #[trigger] tiers[j + 1] == tags[j] by {}
    if offered(tiers, rel) {
        let k = choose|k: int| 0 <= k < tiers.len() && (#[trigger] tiers[k]).files.contains(rel);
        if 0 < k < tiers.len() - 1 {
            assert(tags[k - 1] == tiers[k]);
        }
    }
    if offered(tags, rel) {
        let j = choose|j: int| 0 <= j < tags.len() && (#[trigger] tags[j]).files.contains(rel);
        assert(tiers[j + 1].files.contains(rel));
    }
    if host.files.contains(rel) {
        lemma_first_tier_wins(target, tiers, 0, rel);
    }
    assert forall|j: int|
        0 <= j < tags.len() && !host.files.contains(rel) && (#[trigger] tags[j]).files.contains(rel)
            && (forall|k: int|
            0 <= k < j ==> !(#[trigger] tags[k]).files.contains(rel)) implies resolved[d]
        == tags[j].root + rel by {
        assert forall|k: int| 0 <= k < j + 1 implies !(#[trigger] tiers[k]).files.contains(rel) by {
            if k > 0 {
                assert(tiers[k] == tags[k - 1]);
            }
        }
        lemma_first_tier_wins(target, tiers, j + 1, rel);
    }
    if !host.files.contains(rel) && !offered(tags, rel) && global.files.contains(rel) {
        assert forall|k: int| 0 <= k < tiers.len() - 1 implies !(#[trigger] tiers[k]).files.contains(
            rel,
        ) by {
            if k > 0 {
                assert(tiers[k] == tags[k - 1]);
            }
        }
        lemma_first_tier_wins(target, tiers, tiers.len() - 1, rel);
    }
}

/// The directories that one tier wants under `target`: one for each of its
/// own, at the same relative path.
pub open spec fn tier_directories(target: PathModel, tier: TierModel) -> Set<PathModel> {
    Set::new(
        |d: PathModel| target.is_prefix_of(d) && tier.dirs.contains(d.skip(target.len() as int)),
    )
}

/// The directories that must exist under `target`: those of every tier,
/// whichever tier's files end up linked in them.
pub open spec fn wanted_directories(target: PathModel, tiers: Seq<TierModel>) -> Set<PathModel> {
    Set::new(
        |d: PathModel|
            exists|k: int| 0 <= k < tiers.len() && tier_directories(target, #[trigger] tiers[k]).contains(d),
    )
}

/// Whether `list` holds a path with the components of `path`.
fn holds_path(list: &Vec<FilePath>, path: &FilePath) -> (found: bool)
    ensures
        found == path_models(list@).contains(path@),
{
    let mut i: usize = 0;
    while i < list.len()
        invariant
            i <= list.len(),
            forall|k: int| 0 <= k < i ==> path_models(list@)[k] != path@,
        decreases list.len() - i,
    {
        if list[i] == *path {
            assert(path_models(list@)[i as int] == path@);
            return true;
        }
        i += 1;
    }
    false
}

/// Adds the directories that one tier wants under `target` to `list`, leaving
/// out those that `list` already holds.
fn add_directories(list: &mut Vec<FilePath>, target: &FilePath, tier: &Tier)
    requires
        path_models(old(list)@).no_duplicates(),
    ensures
        path_models(final(list)@).no_duplicates(),
        path_models(final(list)@).to_set() == path_models(old(list)@).to_set().union(
            tier_directories(target@, tier@),
        ),
{
    let ghost before = path_models(list@).to_set();
    let mut i: usize = 0;
    assert(path_models(list@).to_set() =~= before.union(
        tier_directories(target@, first_directories(tier@, 0)),
    ));
    while i < tier.dirs.len()
        invariant
            i <= tier.dirs.len(),
            path_models(list@).no_duplicates(),
            path_models(list@).to_set() == before.union(
                tier_directories(target@, first_directories(tier@, i as int)),
            ),
        decreases tier.dirs.len() - i,
    {
        let wanted = target.join(&tier.dirs[i]);
        let ghost held = path_models(list@);
        let ghost rel = tier.dirs[i as int]@;
        let ghost fewer = tier@.dirs.take(i as int);
        let ghost more = tier@.dirs.take(i + 1);
        proof {
            lemma_join_split(target@, rel);
            assert(more[i as int] == rel);
            assert forall|r: PathModel| more.contains(r) <==> fewer.contains(r) || r == rel by {
                if more.contains(r) {
                    let k = choose|k: int| 0 <= k < more.len() && more[k] == r;
                    if k < i {
                        assert(fewer[k] == r);
                    }
                }
                if fewer.contains(r) {
                    let k = choose|k: int| 0 <= k < fewer.len() && fewer[k] == r;
                    assert(more[k] == r);
                }
            }
            assert(tier_directories(target@, first_directories(tier@, i + 1))
                =~= tier_directories(target@, first_directories(tier@, i as int)).insert(wanted@))
                by {
                assert forall|d: PathModel|
                    tier_directories(target@, first_directories(tier@, i + 1)).contains(d)
                        <==> tier_directories(target@, first_directories(tier@, i as int)).insert(
                        wanted@,
                    ).contains(d) by {
                    let r = d.skip(target@.len() as int);
                    assert(more.contains(r) <==> fewer.contains(r) || r == rel);
                }
            }
        }
        if !holds_path(list, &wanted) {
            list.push(wanted);
            proof {
                let extended = path_models(list@);
                assert(extended =~= held.push(wanted@));
                assert forall|a: int, b: int|
                    0 <= a < extended.len() && 0 <= b < extended.len() && a != b implies extended[a]
                    != extended[b] by {
                    if a < held.len() {
                        assert(held[a] == extended[a]);
                    }
                    if b < held.len() {
                        assert(held[b] == extended[b]);
                    }
                }
                assert(extended.to_set() =~= held.to_set().insert(wanted@)) by {
                    assert forall|d: PathModel| extended.contains(d) <==> held.contains(d) || d
                        == wanted@ by {
                        if extended.contains(d) {
                            let k = choose|k: int| 0 <= k < extended.len() && extended[k] == d;
                            if k < held.len() {
                                assert(held[k] == d);
                            }
                        }
                        if held.contains(d) {
                            let k = choose|k: int| 0 <= k < held.len() && held[k] == d;
                            assert(extended[k] == d);
                        }
                        if d == wanted@ {
                            assert(extended[held.len() as int] == d);
                        }
                    }
                }
            }
        } else {
            assert(held.to_set() =~= held.to_set().insert(wanted@));
        }
        i += 1;
    }
    assert(first_directories(tier@, tier.dirs.len() as int) == tier@) by {
        assert(tier@.dirs.take(tier.dirs.len() as int) =~= tier@.dirs);
    }
}

/// A tier cut down to the first `n` of its directories.
pub open spec fn first_directories(tier: TierModel, n: int) -> TierModel {
    TierModel { root: tier.root, files: tier.files, dirs: tier.dirs.take(n) }
}

/// The directories to create under `target` for a package, each once: those
/// of all its tiers. No tier overrides another here.
pub fn resolve_directories(target: &FilePath, host: &Tier, tags: &Vec<Tier>, global: &Tier) -> (dirs:
    Vec<FilePath>)
    ensures
        path_models(dirs@).no_duplicates(),
        path_models(dirs@).to_set() == wanted_directories(
            target@,
            precedence(host@, tier_models(tags@), global@),
        ),
{
    let ghost tag_models = tier_models(tags@);
    let mut dirs: Vec<FilePath> = Vec::new();
    add_directories(&mut dirs, target, global);
    add_directories(&mut dirs, target, host);
    let ghost base = tier_directories(target@, global@).union(tier_directories(target@, host@));
    assert(path_models(dirs@).to_set() =~= base.union(
        wanted_directories(target@, tag_models.take(0)),
    ));
    let mut j: usize = 0;
    while j < tags.len()
        invariant
            j <= tags.len(),
            tag_models == tier_models(tags@),
            path_models(dirs@).no_duplicates(),
            path_models(dirs@).to_set() == base.union(
                wanted_directories(target@, tag_models.take(j as int)),
            ),
        decreases tags.len() - j,
    {
        add_directories(&mut dirs, target, &tags[j]);
        proof {
            let fewer = tag_models.take(j as int);
            let more = tag_models.take(j + 1);
            assert(more[j as int] == tags[j as int]@);
            assert forall|d: PathModel|
                wanted_directories(target@, more).contains(d) <==> wanted_directories(
                    target@,
                    fewer,
                ).contains(d) || tier_directories(target@, tags[j as int]@).contains(d) by {
                if wanted_directories(target@, more).contains(d) {
                    let k = choose|k: int|
                        0 <= k < more.len() && tier_directories(target@, #[trigger] more[k]).contains(
                            d,
                        );
                    if k < j {
                        assert(fewer[k] == more[k]);
                    }
                }
                if wanted_directories(target@, fewer).contains(d) {
                    let k = choose|k: int|
                        0 <= k < fewer.len() && tier_directories(
                            target@,
                            #[trigger] fewer[k],
                        ).contains(d);
                    assert(more[k] == fewer[k]);
                }
            }
            assert(path_models(dirs@).to_set() =~= base.union(wanted_directories(target@, more)));
        }
        j += 1;
    }
    proof {
        let tiers = precedence(host@, tag_models, global@);
        let of_tags = wanted_directories(target@, tag_models.take(tags.len() as int));
        assert(tag_models.take(tags.len() as int) =~= tag_models);
        assert(tiers[0] == host@);
        assert(tiers[tiers.len() - 1] == global@);
        assert forall|d: PathModel|
            base.union(of_tags).contains(d) <==> wanted_directories(target@, tiers).contains(d) by {
            if wanted_directories(target@, tiers).contains(d) {
                let k = choose|k: int|
                    0 <= k < tiers.len() && tier_directories(target@, #[trigger] tiers[k]).contains(
                        d,
                    );
                if 0 < k < tiers.len() - 1 {
                    assert(tag_models[k - 1] == tiers[k]);
                }
            }
            if of_tags.contains(d) {
                let k = choose|k: int|
                    0 <= k < tag_models.len() && tier_directories(
                        target@,
                        #[trigger] tag_models[k],
                    ).contains(d);
                assert(tiers[k + 1] == tag_models[k]);
            }
        }
        assert(path_models(dirs@).to_set() =~= wanted_directories(target@, tiers));
    }
    dirs
}

/// The destinations that a package answers for: those of its resolved
/// mapping, each once. These are what uninstalling looks at.
pub fn removal_targets(target: &FilePath, host: &Tier, tags: &Vec<Tier>, global: &Tier) -> (targets:
    Vec<FilePath>)
    ensures
        path_models(targets@).no_duplicates(),
        path_models(targets@).to_set() == layered_links(
            target@,
            precedence(host@, tier_models(tags@), global@),
        ).dom(),
{
    let mapping = resolve_links(target, host, tags, global);
    let ghost models = link_models(mapping.links@);
    let mut targets: Vec<FilePath> = Vec::new();
    let mut i: usize = 0;
    while i < mapping.links.len()
        invariant
            i <= mapping.links.len(),
            models == link_models(mapping.links@),
            targets.len() == i,
            forall|k: int| 0 <= k < i ==> (#[trigger] targets@[k])@ == models[k].destination,
        decreases mapping.links.len() - i,
    {
        assert(models[i as int] == mapping.links[i as int]@);
        targets.push(mapping.links[i].destination.clone());
        i += 1;
    }
    proof {
        let found = path_models(targets@);
        assert forall|a: int, b: int|
            0 <= a < found.len() && 0 <= b < found.len() && a != b implies found[a] != found[b] by {
            assert(found[a] == models[a].destination);
            assert(found[b] == models[b].destination);
            if a < b {
                assert(models[a].destination != models[b].destination);
            } else {
                assert(models[b].destination != models[a].destination);
            }
        }
        assert forall|d: PathModel| found.to_set().contains(d) <==> mapping@.dom().contains(d) by {
            lemma_as_map_domain(models, d);
            if found.contains(d) {
                let k = choose|k: int| 0 <= k < found.len() && found[k] == d;
                assert(models[k].destination == d);
            }
            if has_destination(models, d) {
                let k = choose|k: int| 0 <= k < models.len() && (#[trigger] models[k]).destination == d;
                assert(found[k] == d);
            }
        }
        assert(found.to_set() =~= mapping@.dom());
    }
    targets
}

} // verus!
