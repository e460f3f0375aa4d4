//! A candidate upgrade: one version of one package, and where its sources
//! live.

use crate::text::{
    lemma_lex_asymmetric, lemma_lex_connected, lemma_lex_transitive, lex_lt, text_lt,
};
use vstd::multiset::Multiset;
use vstd::prelude::*;

verus! {

/// One version of a package that the user may upgrade to.
#[derive(Debug, PartialEq, Eq)]
pub struct Release {
    pub package: String,
    pub semver: String,
    pub repository_url: String,
}

/// A release as plain text.
pub struct ReleaseView {
    pub package: Seq<char>,
    pub semver: Seq<char>,
    pub repository_url: Seq<char>,
}

impl View for Release {
    type V = ReleaseView;

    open spec fn view(&self) -> ReleaseView {
        ReleaseView {
            package: self.package@,
            semver: self.semver@,
            repository_url: self.repository_url@,
        }
    }
}

/// Whether `a` comes strictly before `b`: by package name, then by the
/// version read as text.
pub open spec fn release_lt(a: ReleaseView, b: ReleaseView) -> bool {
    lex_lt(a.package, b.package) || (a.package == b.package && lex_lt(a.semver, b.semver))
}

/// Whether `a` does not come after `b`.
pub open spec fn release_le(a: ReleaseView, b: ReleaseView) -> bool {
    !release_lt(b, a)
}

/// The text that names a release: package, `@`, version.
pub open spec fn release_label(r: ReleaseView) -> Seq<char> {
    r.package + seq!['@'] + r.semver
}

/// The views of a list of releases.
pub open spec fn release_views(releases: Seq<Release>) -> Seq<ReleaseView> {
    releases.map_values(|r: Release| r@)
}

/// Whether two releases are the same version of the same package.
pub open spec fn same_key(a: ReleaseView, b: ReleaseView) -> bool {
    a.package == b.package && a.semver == b.semver
}

/// The test for being the version of the package that `key` is.
pub open spec fn key_test(key: ReleaseView) -> spec_fn(Release) -> bool {
    |r: Release| same_key(r@, key)
}

/// The releases in `s` that are the version of the package that `key` is,
/// in the order in which they stand in `s`.
pub open spec fn with_key(s: Seq<Release>, key: ReleaseView) -> Seq<Release> {
    s.filter(key_test(key))
}

/// The test for being the version of the package that `key` is, on views.
pub open spec fn view_key_test(key: ReleaseView) -> spec_fn(ReleaseView) -> bool {
    |v: ReleaseView| same_key(v, key)
}

/// Whether every release stands before or with those after it.
pub open spec fn releases_sorted(s: Seq<Release>) -> bool {
    forall|i: int, j: int| 0 <= i < j < s.len() ==> release_le(s[i]@, s[j]@)
}

impl Clone for Release {
    fn clone(&self) -> (r: Release)
        ensures
            r == *self,
    {
        Release {
            package: self.package.clone(),
            semver: self.semver.clone(),
            repository_url: self.repository_url.clone(),
        }
    }
}

impl Release {
    /// The release as `package@version`.
    pub fn to_string(&self) -> (r: String)
        ensures
            r@ == release_label(self@),
    {
        let mut out = self.package.clone();
        out.append("@");
        out.append(self.semver.as_str());
        proof {
            reveal_strlit("@");
            assert("@"@ =~= seq!['@']);
        }
        out
    }

    /// Whether `self` comes strictly before `other`.
    pub fn lt(&self, other: &Release) -> (r: bool)
        ensures
            r == release_lt(self@, other@),
    {
        if text_lt(self.package.as_str(), other.package.as_str()) {
            true
        } else if text_lt(other.package.as_str(), self.package.as_str()) {
            proof {
                if self.package@ == other.package@ {
                    lemma_lex_asymmetric(self.package@, other.package@);
                }
                assert(self.package@ != other.package@);
            }
            false
        } else {
            proof {
                lemma_lex_connected(self.package@, other.package@);
            }
            text_lt(self.semver.as_str(), other.semver.as_str())
        }
    }
}

/// Nothing comes before itself.
pub proof fn lemma_release_lt_irreflexive(a: ReleaseView)
    ensures
        !release_lt(a, a),
{
    if lex_lt(a.package, a.package) {
        lemma_lex_asymmetric(a.package, a.package);
    }
    if lex_lt(a.semver, a.semver) {
        lemma_lex_asymmetric(a.semver, a.semver);
    }
}

/// The order of releases is total: of two releases one does not come after
/// the other, and two that are each at most the other have the same package
/// and version.
pub proof fn lemma_release_order_total(a: ReleaseView, b: ReleaseView)
    ensures
        release_le(a, b) || release_le(b, a),
        release_le(a, b) && release_le(b, a) ==> a.package == b.package && a.semver == b.semver,
{
    if lex_lt(a.package, b.package) {
        lemma_lex_asymmetric(a.package, b.package);
    }
    if lex_lt(b.package, a.package) {
        lemma_lex_asymmetric(b.package, a.package);
    }
    if lex_lt(a.semver, b.semver) {
        lemma_lex_asymmetric(a.semver, b.semver);
    }
    if lex_lt(b.semver, a.semver) {
        lemma_lex_asymmetric(b.semver, a.semver);
    }
    if !lex_lt(a.package, b.package) && !lex_lt(b.package, a.package) {
        lemma_lex_connected(a.package, b.package);
        if !lex_lt(a.semver, b.semver) && !lex_lt(b.semver, a.semver) {
            lemma_lex_connected(a.semver, b.semver);
        }
    }
}

/// The order of releases is transitive.
pub proof fn lemma_release_order_transitive(a: ReleaseView, b: ReleaseView, c: ReleaseView)
    requires
        release_le(a, b),
        release_le(b, c),
    ensures
        release_le(a, c),
{
    if release_lt(c, a) {
        // c < a and a <= b give c < b, against b <= c.
        lemma_release_order_total(a, b);
        lemma_release_order_total(b, c);
        lemma_release_order_total(a, c);
        if lex_lt(c.package, a.package) {
            if lex_lt(a.package, b.package) {
                lemma_lex_transitive(c.package, a.package, b.package);
            } else if !lex_lt(b.package, a.package) {
                lemma_lex_connected(a.package, b.package);
            }
        } else {
            // same package, c.semver < a.semver
            if lex_lt(a.package, b.package) {
            } else if !lex_lt(b.package, a.package) {
                lemma_lex_connected(a.package, b.package);
                if lex_lt(a.semver, b.semver) {
                    lemma_lex_transitive(c.semver, a.semver, b.semver);
                } else if !lex_lt(b.semver, a.semver) {
                    lemma_lex_connected(a.semver, b.semver);
                }
            }
        }
    }
}

/// Of two releases at most one comes strictly before the other.
pub proof fn lemma_release_lt_asymmetric(a: ReleaseView, b: ReleaseView)
    requires
        release_lt(a, b),
    ensures
        !release_lt(b, a),
{
    lemma_release_order_total(a, b);
    lemma_release_lt_irreflexive(a);
    if lex_lt(a.package, b.package) {
        lemma_lex_asymmetric(a.package, b.package);
    } else {
        lemma_lex_asymmetric(a.semver, b.semver);
        if lex_lt(b.package, a.package) {
            lemma_lex_asymmetric(b.package, a.package);
        }
    }
}

/// Nothing occurs in an empty list.
proof fn lemma_empty_to_multiset(s: Seq<Release>)
    requires
        s.len() == 0,
    ensures
        s.to_multiset() == Multiset::<Release>::empty(),
{
    broadcast use vstd::multiset::group_multiset_axioms;

    s.to_multiset_ensures();
    assert forall|a: Release| s.to_multiset().count(a) == 0 by {
        assert(!s.contains(a));
    }
    assert(s.to_multiset() =~= Multiset::<Release>::empty());
}

/// Nothing occurs in an empty list of views.
proof fn lemma_empty_views_to_multiset(s: Seq<ReleaseView>)
    requires
        s.len() == 0,
    ensures
        s.to_multiset() == Multiset::<ReleaseView>::empty(),
{
    broadcast use vstd::multiset::group_multiset_axioms;

    s.to_multiset_ensures();
    assert forall|a: ReleaseView| s.to_multiset().count(a) == 0 by {
        assert(!s.contains(a));
    }
    assert(s.to_multiset() =~= Multiset::<ReleaseView>::empty());
}

/// Picking the releases of one package and version and then taking views
/// is taking views and then picking.
pub proof fn lemma_views_with_key(s: Seq<Release>, key: ReleaseView)
    ensures
        release_views(with_key(s, key)) == release_views(s).filter(view_key_test(key)),
    decreases s.len(),
{
    reveal(Seq::filter);
    if s.len() == 0 {
        assert(release_views(with_key(s, key)) =~= release_views(s).filter(view_key_test(key)));
    } else {
        let t = s.drop_last();
        lemma_views_with_key(t, key);
        assert(release_views(s).drop_last() =~= release_views(t));
        assert(release_views(s).last() == s.last()@);
        if same_key(s.last()@, key) {
            assert(release_views(with_key(t, key).push(s.last())) =~= release_views(
                with_key(t, key),
            ).push(s.last()@));
        }
    }
}

/// Where nothing passes the test, nothing is left.
proof fn lemma_filter_none(s: Seq<Release>, test: spec_fn(Release) -> bool)
    requires
        forall|i: int| 0 <= i < s.len() ==> !test(s[i]),
    ensures
        s.filter(test) == Seq::<Release>::empty(),
    decreases s.len(),
{
    reveal(Seq::filter);
    if s.len() > 0 {
        lemma_filter_none(s.drop_last(), test);
    }
}

/// A release put in behind releases that all come strictly before it stands
/// in front of all that it shares package and version with.
proof fn lemma_insert_keeps_order(sorted: Seq<Release>, pos: int, item: Release, key: ReleaseView)
    requires
        0 <= pos <= sorted.len(),
        forall|k: int| 0 <= k < pos ==> release_lt(sorted[k]@, item@),
    ensures
        with_key(sorted.insert(pos, item), key) == if same_key(item@, key) {
            seq![item] + with_key(sorted, key)
        } else {
            with_key(sorted, key)
        },
{
    let test = key_test(key);
    let front = sorted.take(pos);
    let back = sorted.skip(pos);
    assert(sorted.insert(pos, item) =~= front.push(item) + back);
    assert(sorted =~= front + back);
    Seq::filter_distributes_over_add(front.push(item), back, test);
    Seq::filter_distributes_over_add(front, back, test);
    front.lemma_filter_push(item, test);
    if same_key(item@, key) {
        assert forall|i: int| 0 <= i < front.len() implies !test(front[i]) by {
            lemma_release_lt_irreflexive(item@);
            assert(release_lt(sorted[i]@, item@));
        }
        lemma_filter_none(front, test);
        assert(front.filter(test).push(item) + back.filter(test) =~= seq![item] + (front.filter(test)
            + back.filter(test)));
    }
}

/// Puts releases in order. The result holds the same releases, each as often
/// as before, and releases that are the same version of the same package
/// keep the order in which they came.
pub fn sort_releases(releases: Vec<Release>) -> (sorted: Vec<Release>)
    ensures
        releases_sorted(sorted@),
        sorted@.to_multiset() == releases@.to_multiset(),
        release_views(sorted@).to_multiset() == release_views(releases@).to_multiset(),
        forall|key: ReleaseView| #[trigger] with_key(sorted@, key) == with_key(releases@, key),
{
    broadcast use vstd::multiset::group_multiset_axioms;

    let ghost original = releases@;
    let mut rest = releases;
    let mut sorted: Vec<Release> = Vec::new();
    proof {
        lemma_empty_to_multiset(sorted@);
        assert(sorted@.to_multiset().add(rest@.to_multiset()) =~= original.to_multiset());
        assert(release_views(sorted@) =~= Seq::<ReleaseView>::empty());
        lemma_empty_views_to_multiset(release_views(sorted@));
        assert(release_views(sorted@).to_multiset().add(release_views(rest@).to_multiset())
            =~= release_views(original).to_multiset());
        assert forall|key: ReleaseView| #[trigger]
            with_key(original, key) == with_key(rest@, key) + with_key(sorted@, key) by {
            lemma_filter_none(sorted@, key_test(key));
        }
    }
    while rest.len() > 0
        invariant
            releases_sorted(sorted@),
            sorted@.to_multiset().add(rest@.to_multiset()) == original.to_multiset(),
            release_views(sorted@).to_multiset().add(release_views(rest@).to_multiset())
                == release_views(original).to_multiset(),
            forall|key: ReleaseView| #[trigger]
                with_key(original, key) == with_key(rest@, key) + with_key(sorted@, key),
        decreases rest.len(),
    {
        let ghost before = rest@;
        let item = rest.pop().unwrap();
        proof {
            assert(before == rest@.push(item));
            vstd::seq_lib::to_multiset_build(rest@, item);
            assert(release_views(before) =~= release_views(rest@).push(item@));
            vstd::seq_lib::to_multiset_build(release_views(rest@), item@);
        }
        let mut pos: usize = 0;
        while pos < sorted.len() && sorted[pos].lt(&item)
            invariant
                pos <= sorted.len(),
                releases_sorted(sorted@),
                forall|k: int| 0 <= k < pos ==> release_lt(sorted@[k]@, item@),
            decreases sorted.len() - pos,
        {
            pos += 1;
        }
        let ghost old_sorted = sorted@;
        sorted.insert(pos, item);
        proof {
            assert(sorted@ == old_sorted.insert(pos as int, item));
            assert forall|i: int, j: int| 0 <= i < j < sorted@.len() implies release_le(
                sorted@[i]@,
                sorted@[j]@,
            ) by {
                if j < pos {
                } else if j == pos {
                    lemma_release_lt_asymmetric(old_sorted[i]@, item@);
                } else if i == pos {
                    if j > pos + 1 {
                        lemma_release_order_transitive(item@, old_sorted[pos as int]@, old_sorted[j - 1]@);
                    }
                } else if i < pos {
                    assert(sorted@[i] == old_sorted[i]);
                    assert(sorted@[j] == old_sorted[j - 1]);
                } else {
                    assert(sorted@[i] == old_sorted[i - 1]);
                    assert(sorted@[j] == old_sorted[j - 1]);
                }
            }
            vstd::seq_lib::to_multiset_insert(old_sorted, pos as int, item);
            assert(sorted@.to_multiset().add(rest@.to_multiset()) =~= original.to_multiset());
            assert(release_views(sorted@) =~= release_views(old_sorted).insert(pos as int, item@));
            vstd::seq_lib::to_multiset_insert(release_views(old_sorted), pos as int, item@);
            assert(release_views(sorted@).to_multiset().add(release_views(rest@).to_multiset())
                =~= release_views(original).to_multiset());
            assert forall|key: ReleaseView| #[trigger]
                with_key(original, key) == with_key(rest@, key) + with_key(sorted@, key) by {
                assert(with_key(original, key) == with_key(before, key) + with_key(old_sorted, key));
                rest@.lemma_filter_push(item, key_test(key));
                lemma_insert_keeps_order(old_sorted, pos as int, item, key);
                if same_key(item@, key) {
                    assert(with_key(rest@, key).push(item) + with_key(old_sorted, key) =~= with_key(
                        rest@,
                        key,
                    ) + (seq![item] + with_key(old_sorted, key)));
                }
            }
        }
    }
    proof {
        lemma_empty_to_multiset(rest@);
        assert(sorted@.to_multiset().add(rest@.to_multiset()) =~= sorted@.to_multiset());
        lemma_empty_views_to_multiset(release_views(rest@));
        assert(release_views(sorted@).to_multiset().add(release_views(rest@).to_multiset())
            =~= release_views(sorted@).to_multiset());
        assert forall|key: ReleaseView| #[trigger]
            with_key(sorted@, key) == with_key(original, key) by {
            lemma_filter_none(rest@, key_test(key));
            assert(with_key(original, key) == with_key(rest@, key) + with_key(sorted@, key));
        }
    }
    sorted
}

} // verus!
