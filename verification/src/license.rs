//! The licenses of a crate, by rating.

use crate::context::{LicenseData, LicenseDataView};
use crate::metadata::PackageView;
use crate::order::{in_order, in_order_ignores_input_order, in_order_sorts, sort, Ordered};
use crate::text::{
    contains_text, joined, lemma_filter_source, lemma_filter_take, lemma_joined_push, str_le, views,
};
use vstd::prelude::*;
use vstd::seq_lib::*;
use vstd::string::*;

verus! {

/// A license under which a crate can be had, with its rating.
#[derive(Debug)]
pub struct AvailableLicense {
    pub name: String,
    pub rating: String,
}

#[verifier::ext_equal]
pub struct AvailableLicenseView {
    pub name: Seq<char>,
    pub rating: Seq<char>,
}

impl View for AvailableLicense {
    type V = AvailableLicenseView;

    open spec fn view(&self) -> AvailableLicenseView {
        AvailableLicenseView { name: self.name@, rating: self.rating@ }
    }
}

/// The license expression of a package; empty where it has none.
pub open spec fn license_expression(package: PackageView) -> Seq<char> {
    match package.license {
        Some(expression) => expression,
        None => Seq::empty(),
    }
}

/// The ratings that occur, each once, in the order in which they first occur.
pub open spec fn ratings(available: Seq<AvailableLicenseView>) -> Seq<Seq<char>>
    decreases available.len(),
{
    if available.len() == 0 {
        Seq::empty()
    } else {
        let before = ratings(available.drop_last());
        if before.contains(available.last().rating) {
            before
        } else {
            before.push(available.last().rating)
        }
    }
}

/// The names of the licenses of one rating, in order.
pub open spec fn names_rated(
    available: Seq<AvailableLicenseView>,
    rating: Seq<char>,
) -> Seq<Seq<char>> {
    available.filter(|license: AvailableLicenseView| license.rating == rating).map_values(
        |license: AvailableLicenseView| license.name,
    )
}

/// One entry for each rating, by rising rating, with the names of the licenses of that
/// rating and a comma between each two.
pub open spec fn license_summary(available: Seq<AvailableLicenseView>) -> Seq<LicenseDataView> {
    in_order::<String>(ratings(available)).map_values(
        |rating: Seq<char>|
            LicenseDataView { name: joined(names_rated(available, rating), ","@), rating },
    )
}

/// The ratings that occur, each once, in the order in which they first occur.
fn ratings_of(available: &Vec<AvailableLicense>) -> (found: Vec<String>)
    ensures
        views(found@) == ratings(views(available@)),
{
    let ghost all = views(available@);
    let mut found: Vec<String> = Vec::new();
    let mut i: usize = 0;
    assert(views(found@) =~= ratings(all.take(0)));
    while i < available.len()
        invariant
            i <= available.len(),
            all == views(available@),
            views(found@) == ratings(all.take(i as int)),
        decreases available.len() - i,
    {
        let ghost before = views(found@);
        if !contains_text(&found, &available[i].rating) {
            found.push(available[i].rating.clone());
            assert(views(found@) =~= before.push(all[i as int].rating));
        }
        assert(all.take(i + 1).drop_last() =~= all.take(i as int));
        i += 1;
    }
    assert(all.take(i as int) =~= all);
    found
}

/// The names of the licenses of one rating, in order, with a comma between each two.
fn names_text(available: &Vec<AvailableLicense>, rating: &String) -> (text: String)
    ensures
        text@ == joined(names_rated(views(available@), rating@), ","@),
{
    let ghost all = views(available@);
    let ghost of_rating = |license: AvailableLicenseView| license.rating == rating@;
    let mut text = String::new();
    let mut some = false;
    let mut i: usize = 0;
    proof {
        reveal(Seq::filter);
        assert(names_rated(all.take(0), rating@) =~= Seq::<Seq<char>>::empty());
    }
    while i < available.len()
        invariant
            i <= available.len(),
            all == views(available@),
            of_rating == |license: AvailableLicenseView| license.rating == rating@,
            some == (names_rated(all.take(i as int), rating@).len() > 0),
            text@ == joined(names_rated(all.take(i as int), rating@), ","@),
        decreases available.len() - i,
    {
        proof {
            let before = names_rated(all.take(i as int), rating@);
            lemma_filter_take(all, of_rating, i as int);
            lemma_joined_push(before, all[i as int].name, ","@);
            if of_rating(all[i as int]) {
                assert(names_rated(all.take(i + 1), rating@) =~= before.push(all[i as int].name));
            }
        }
        if available[i].rating == *rating {
            if some {
                text = text.concat(",");
                text = text.concat(available[i].name.as_str());
            } else {
                text = available[i].name.clone();
                some = true;
            }
        }
        i += 1;
    }
    assert(all.take(i as int) =~= all);
    text
}

/// Sums up the licenses under which a crate can be had, one entry for each rating.
pub fn load_and_dedup_licenses(available: &Vec<AvailableLicense>) -> (summary: Vec<LicenseData>)
    ensures
        views(summary@) == license_summary(views(available@)),
{
    let sorted = sort(ratings_of(available));
    let mut summary: Vec<LicenseData> = Vec::new();
    let mut i: usize = 0;
    while i < sorted.len()
        invariant
            i <= sorted.len(),
            views(sorted@) == in_order::<String>(ratings(views(available@))),
            summary.len() == i,
            forall|j: int|
                0 <= j < i ==> (#[trigger] summary@[j])@ == license_summary(views(available@))[j],
        decreases sorted.len() - i,
    {
        let name = names_text(available, &sorted[i]);
        assert(views(sorted@)[i as int] == sorted@[i as int]@);
        summary.push(LicenseData { name, rating: sorted[i].clone() });
        i += 1;
    }
    assert(views(summary@) =~= license_summary(views(available@)));
    summary
}

proof fn lemma_ratings(available: Seq<AvailableLicenseView>)
    ensures
        ratings(available).no_duplicates(),
        forall|rating: Seq<char>| #[trigger]
            ratings(available).contains(rating) <==> exists|i: int|
                0 <= i < available.len() && #[trigger] available[i].rating == rating,
    decreases available.len(),
{
    if available.len() > 0 {
        let last = available.last().rating;
        let before = available.drop_last();
        lemma_ratings(before);
        assert forall|rating: Seq<char>| #[trigger]
            ratings(available).contains(rating) <==> exists|i: int|
                0 <= i < available.len() && #[trigger] available[i].rating == rating by {
            if ratings(available).contains(rating) {
                if rating == last {
                    assert(available[available.len() - 1].rating == rating);
                } else {
                    let at = choose|at: int|
                        0 <= at < ratings(available).len() && ratings(available)[at] == rating;
                    assert(ratings(before)[at] == rating);
                    assert(ratings(before).contains(rating));
                    let i = choose|i: int|
                        0 <= i < before.len() && #[trigger] before[i].rating == rating;
                    assert(available[i].rating == rating);
                }
            }
            if exists|i: int| 0 <= i < available.len() && #[trigger] available[i].rating == rating {
                let i = choose|i: int|
                    0 <= i < available.len() && #[trigger] available[i].rating == rating;
                if i < before.len() {
                    assert(before[i].rating == rating);
                    assert(ratings(before).contains(rating));
                    let at = choose|at: int|
                        0 <= at < ratings(before).len() && ratings(before)[at] == rating;
                    assert(ratings(available)[at] == rating);
                } else if !ratings(before).contains(last) {
                    assert(ratings(available)[ratings(available).len() - 1] == rating);
                }
            }
        }
    }
}

/// The summary has one entry for each rating that occurs and no other, by strictly rising
/// rating.
pub proof fn summary_has_each_rating_once(available: Seq<AvailableLicenseView>)
    ensures
        forall|i: int, j: int|
            0 <= i < j < license_summary(available).len() ==> {
                &&& str_le(
                    #[trigger] license_summary(available)[i].rating,
                    #[trigger] license_summary(available)[j].rating,
                )
                &&& license_summary(available)[i].rating != license_summary(available)[j].rating
            },
        forall|rating: Seq<char>|
            (exists|i: int| 0 <= i < available.len() && #[trigger] available[i].rating == rating)
                <==> #[trigger] has_rating(license_summary(available), rating),
{
    let found = ratings(available);
    let sorted = in_order::<String>(found);
    lemma_ratings(available);
    in_order_sorts::<String>(found);
    broadcast use group_to_multiset_ensures;

    found.lemma_multiset_has_no_duplicates();
    sorted.lemma_multiset_has_no_duplicates_conv();
    let leq = |a: Seq<char>, b: Seq<char>| <String as Ordered>::precedes(a, b);
    assert forall|i: int, j: int| 0 <= i < j < license_summary(available).len() implies {
        &&& str_le(
            #[trigger] license_summary(available)[i].rating,
            #[trigger] license_summary(available)[j].rating,
        )
        &&& license_summary(available)[i].rating != license_summary(available)[j].rating
    } by {
        assert(leq(sorted[i], sorted[j]));
    }
    assert forall|rating: Seq<char>|
        (exists|i: int| 0 <= i < available.len() && #[trigger] available[i].rating == rating)
            <==> #[trigger] has_rating(license_summary(available), rating) by {
        assert(found.contains(rating) <==> sorted.contains(rating)) by {
            assert(found.to_multiset().count(rating) == sorted.to_multiset().count(rating));
        }
        if sorted.contains(rating) {
            let at = choose|at: int| 0 <= at < sorted.len() && sorted[at] == rating;
            assert(license_summary(available)[at].rating == rating);
        }
        if has_rating(license_summary(available), rating) {
            let at = choose|at: int|
                0 <= at < license_summary(available).len() && #[trigger] license_summary(
                    available,
                )[at].rating == rating;
            assert(sorted[at] == rating);
        }
    }
}

/// Whether a summary has an entry of a rating.
pub open spec fn has_rating(summary: Seq<LicenseDataView>, rating: Seq<char>) -> bool {
    exists|i: int| 0 <= i < summary.len() && #[trigger] summary[i].rating == rating
}

/// The summary depends on nothing but the names of each rating: how licenses of different
/// ratings are mixed makes no difference.
pub proof fn summary_depends_on_names_of_each_rating(
    left: Seq<AvailableLicenseView>,
    right: Seq<AvailableLicenseView>,
)
    requires
        forall|rating: Seq<char>| #[trigger]
            names_rated(left, rating) == names_rated(right, rating),
    ensures
        license_summary(left) == license_summary(right),
{
    lemma_ratings(left);
    lemma_ratings(right);
    assert forall|rating: Seq<char>| #[trigger]
        ratings(left).contains(rating) <==> ratings(right).contains(rating) by {
        lemma_rated_names_exist(left, rating);
        lemma_rated_names_exist(right, rating);
        assert(names_rated(left, rating) == names_rated(right, rating));
    }
    broadcast use group_to_multiset_ensures;

    ratings(left).lemma_multiset_has_no_duplicates();
    ratings(right).lemma_multiset_has_no_duplicates();
    assert(ratings(left).to_multiset() =~= ratings(right).to_multiset()) by {
        assert forall|rating: Seq<char>| #[trigger]
            ratings(left).to_multiset().count(rating) == ratings(right).to_multiset().count(
                rating,
            ) by {
            assert(ratings(left).contains(rating) <==> ratings(right).contains(rating));
        }
    }
    in_order_ignores_input_order::<String>(ratings(left), ratings(right));
    assert(license_summary(left) =~= license_summary(right));
}

proof fn lemma_rated_names_exist(available: Seq<AvailableLicenseView>, rating: Seq<char>)
    ensures
        names_rated(available, rating).len() > 0 <==> exists|i: int|
            0 <= i < available.len() && #[trigger] available[i].rating == rating,
{
    let of_rating = |license: AvailableLicenseView| license.rating == rating;
    let picked = available.filter(of_rating);
    broadcast use Seq::lemma_filter_contains, Seq::lemma_filter_pred;

    if exists|i: int| 0 <= i < available.len() && #[trigger] available[i].rating == rating {
        let i = choose|i: int| 0 <= i < available.len() && #[trigger] available[i].rating == rating;
        assert(of_rating(available[i]));
        assert(picked.contains(available[i]));
    }
    if picked.len() > 0 {
        lemma_filter_source(available, of_rating, 0);
    }
}

/// What is said of a license is said of its name and its rating.
pub proof fn license_views_show_the_fields(license: AvailableLicense)
    ensures
        license@.name == license.name@,
        license@.rating == license.rating@,
{
}

/// A package with a license expression has just that one; one without has an empty one.
pub proof fn license_expression_is_the_packages(package: PackageView, text: Seq<char>)
    ensures
        package.license == Some(text) ==> license_expression(package) == text,
        package.license is None ==> license_expression(package).len() == 0,
{
}

/// An entry is in the summary exactly where its rating occurs and its name is that of the
/// licenses of the rating.
proof fn lemma_summary_entries(available: Seq<AvailableLicenseView>, entry: LicenseDataView)
    ensures
        license_summary(available).contains(entry) <==> (exists|i: int|
            0 <= i < available.len() && #[trigger] available[i].rating == entry.rating)
            && entry.name == joined(names_rated(available, entry.rating), ","@),
{
    let summary = license_summary(available);
    let sorted = in_order::<String>(ratings(available));
    summary_has_each_rating_once(available);
    if summary.contains(entry) {
        let at = choose|at: int| 0 <= at < summary.len() && summary[at] == entry;
        assert(summary[at].rating == entry.rating);
        assert(has_rating(summary, entry.rating));
    }
    if (exists|i: int|
        0 <= i < available.len() && #[trigger] available[i].rating == entry.rating) && entry.name
        == joined(names_rated(available, entry.rating), ","@) {
        assert(has_rating(summary, entry.rating));
        let at = choose|at: int|
            0 <= at < summary.len() && #[trigger] summary[at].rating == entry.rating;
        assert(sorted[at] == entry.rating);
        assert(summary[at] == entry);
    }
}

proof fn lemma_names_rated_push(
    available: Seq<AvailableLicenseView>,
    license: AvailableLicenseView,
    rating: Seq<char>,
)
    ensures
        names_rated(available.push(license), rating) == if license.rating == rating {
            names_rated(available, rating).push(license.name)
        } else {
            names_rated(available, rating)
        },
{
    let of_rating = |license: AvailableLicenseView| license.rating == rating;
    let longer = available.push(license);
    lemma_filter_take(longer, of_rating, available.len() as int);
    assert(longer.take(available.len() as int) =~= available);
    assert(longer.take((available.len() + 1) as int) =~= longer);
    if license.rating == rating {
        assert(names_rated(longer, rating) =~= names_rated(available, rating).push(license.name));
    }
}

/// No licenses sum up to nothing. One license more leaves the entries of the other ratings as
/// they are. To the entry of its own rating it adds a comma and its name; where there was no
/// such entry, there is one now, with its name alone.
pub proof fn one_license_more_is_summed_up(
    available: Seq<AvailableLicenseView>,
    license: AvailableLicenseView,
    entry: LicenseDataView,
)
    ensures
        license_summary(Seq::empty()).len() == 0,
        entry.rating != license.rating ==> (license_summary(available.push(license)).contains(
            entry,
        ) <==> license_summary(available).contains(entry)),
        entry.rating == license.rating && license_summary(available).contains(entry)
            ==> license_summary(available.push(license)).contains(
            LicenseDataView {
                name: entry.name + ","@ + license.name,
                rating: license.rating,
            },
        ),
        (forall|i: int|
            0 <= i < available.len() ==> #[trigger] available[i].rating != license.rating)
            ==> license_summary(available.push(license)).contains(
            LicenseDataView { name: license.name, rating: license.rating },
        ),
{
    let longer = available.push(license);
    let rating = entry.rating;
    let none = Seq::<AvailableLicenseView>::empty();
    summary_has_each_rating_once(none);
    if license_summary(none).len() > 0 {
        assert(license_summary(none)[0].rating == license_summary(none)[0].rating);
        assert(has_rating(license_summary(none), license_summary(none)[0].rating));
    }
    assert forall|i: int| 0 <= i < available.len() implies #[trigger] longer[i]
        == available[i] by {}
    assert(longer[available.len() as int] == license);
    lemma_names_rated_push(available, license, license.rating);
    lemma_names_rated_push(available, license, rating);
    lemma_rated_names_exist(available, license.rating);
    let own = names_rated(available, license.rating);
    lemma_joined_push(own, license.name, ","@);
    lemma_summary_entries(available, entry);
    lemma_summary_entries(longer, entry);
    if rating != license.rating {
        if exists|i: int| 0 <= i < available.len() && #[trigger] available[i].rating == rating {
            let i = choose|i: int|
                0 <= i < available.len() && #[trigger] available[i].rating == rating;
            assert(longer[i].rating == rating);
        }
        if exists|i: int| 0 <= i < longer.len() && #[trigger] longer[i].rating == rating {
            let i = choose|i: int| 0 <= i < longer.len() && #[trigger] longer[i].rating == rating;
            assert(available[i].rating == rating);
        }
    }
    assert(longer[available.len() as int].rating == license.rating);
    lemma_summary_entries(
        longer,
        LicenseDataView { name: entry.name + ","@ + license.name, rating: license.rating },
    );
    lemma_summary_entries(longer, LicenseDataView { name: license.name, rating: license.rating });
}

/// Where exactly one license has a rating, the entry of that rating has the name of that
/// license.
pub proof fn a_lone_license_keeps_its_name(available: Seq<AvailableLicenseView>, i: int)
    requires
        0 <= i < available.len(),
        forall|other: int|
            0 <= other < available.len() && other != i ==> #[trigger] available[other].rating
                != available[i].rating,
    ensures
        license_summary(available).contains(
            LicenseDataView { name: available[i].name, rating: available[i].rating },
        ),
    decreases available.len(),
{
    let last = available.last();
    let fewer = available.drop_last();
    assert(fewer.push(last) =~= available);
    let entry = LicenseDataView { name: available[i].name, rating: available[i].rating };
    one_license_more_is_summed_up(fewer, last, entry);
    assert forall|k: int| 0 <= k < fewer.len() implies #[trigger] fewer[k] == available[k] by {}
    if i < fewer.len() {
        a_lone_license_keeps_its_name(fewer, i);
        assert(available[available.len() - 1].rating != available[i].rating);
    } else {
        assert forall|k: int| 0 <= k < fewer.len() implies #[trigger] fewer[k].rating
            != last.rating by {
            assert(available[k].rating != available[i].rating);
        }
    }
}

} // verus!
