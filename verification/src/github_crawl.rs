//! What a crawl asks for, page by page, and how a repository is named.

use vstd::prelude::*;
use vstd::string::*;
use vstd::utf8::*;

use crate::github;
use crate::github::{CrawlKind, CrawlView};
use crate::hash;
use crate::text;
use crate::text::Separator;
use crate::text_laws;

verus! {

/// A crawl asks for the next page behind where the last one ended, counts what
/// came, and ends where the service has no more, sent nothing, or the limit is
/// reached.
pub proof fn law_crawls_follow_the_pages(
    crawl: CrawlView,
    count: nat,
    has_next_page: bool,
    end_cursor: Option<Seq<char>>,
)
    ensures
        ({
            let now = crawl.after_page(count, has_next_page, end_cursor);
            &&& now.kind == crawl.kind
            &&& now.limit == crawl.limit
            &&& now.imported == crawl.imported + count
            &&& count > 0 ==> now.page == crawl.page + 1
            &&& count > 0 && has_next_page ==> now.cursor == end_cursor
            &&& count > 0 && has_next_page && !crawl.finished ==> (now.goes_on() <==> now.imported
                < crawl.limit)
            &&& count == 0 || !has_next_page ==> !now.goes_on()
        }),
{
}

/// A request asks for a full page, or for what is missing where that is less,
/// and never for nothing.
pub proof fn law_requests_ask_for_what_is_missing(crawl: CrawlView)
    requires
        crawl.goes_on(),
    ensures
        0 < crawl.first() <= crawl.limit - crawl.imported,
        crawl.first() <= crawl.kind.page_size(),
        crawl.first() == crawl.limit - crawl.imported || crawl.first() == crawl.kind.page_size(),
        crawl.kind.page_size() == if crawl.kind == CrawlKind::PullRequests {
            5int
        } else {
            20int
        },
{
}

/// Only passing failures are tried again: too many requests, and failures of
/// the service. There are at most four further attempts, each after twice the
/// wait before, the first after a quarter of a second.
pub proof fn law_passing_failures_are_retried(attempt: u32, status: Option<u16>)
    ensures
        github::retry_millis(attempt, status) is Some <==> attempt < 4 && (status matches Some(code)
            && (code == 429 || 500 <= code < 600)),
        github::retry_millis(0, status) matches Some(wait) ==> wait == 250,
        0 < attempt ==> (github::retry_millis(attempt, status) matches Some(wait) ==> (
        github::retry_millis((attempt - 1) as u32, status) matches Some(before) && wait == 2
            * before)),
{
}

proof fn lemma_present<T>(items: Seq<Option<T>>)
    ensures
        github::present(items) == items.filter(|item: Option<T>| item is Some).map_values(
            |item: Option<T>| item->0,
        ),
    decreases items.len(),
{
    reveal(Seq::filter);
    let there = |item: Option<T>| item is Some;
    let got = |item: Option<T>| item->0;
    if items.len() > 0 {
        lemma_present(items.drop_last());
        if items.last() is Some {
            assert(items.drop_last().filter(there).push(items.last()).map_values(got)
                =~= items.drop_last().filter(there).map_values(got).push(items.last()->0));
        }
    } else {
        assert(items.filter(there).map_values(got) =~= Seq::<T>::empty());
    }
}

/// What a page lists is kept in order, and only the gaps are left out.
pub proof fn law_listed_items_are_kept<T>(items: Seq<Option<T>>)
    ensures
        github::present(items) == items.filter(|item: Option<T>| item is Some).map_values(
            |item: Option<T>| item->0,
        ),
        (forall|i: int| 0 <= i < items.len() ==> (#[trigger] items[i]) is Some)
            ==> github::present(items).len() == items.len() && forall|i: int|
            0 <= i < items.len() ==> github::present(items)[i] == (#[trigger] items[i])->0,
    decreases items.len(),
{
    lemma_present(items);
    if forall|i: int| 0 <= i < items.len() ==> (#[trigger] items[i]) is Some {
        lemma_all_present(items);
    }
}

proof fn lemma_all_present<T>(items: Seq<Option<T>>)
    requires
        forall|i: int| 0 <= i < items.len() ==> (#[trigger] items[i]) is Some,
    ensures
        github::present(items).len() == items.len(),
        forall|i: int| 0 <= i < items.len() ==> github::present(items)[i] == (#[trigger] items[i])->0,
    decreases items.len(),
{
    if items.len() > 0 {
        let rest = items.drop_last();
        assert forall|i: int| 0 <= i < rest.len() implies (#[trigger] rest[i]) is Some by {
            assert(rest[i] == items[i]);
        }
        lemma_all_present(rest);
        assert(items[items.len() - 1] is Some);
        assert forall|i: int| 0 <= i < items.len() implies github::present(items)[i] == (
        #[trigger] items[i])->0 by {
            if i < rest.len() {
                assert(rest[i] == items[i]);
            }
        }
    }
}

/// Whether a text can be an owner or a name: something, without slashes and
/// without white space.
pub open spec fn plain(s: Seq<char>) -> bool {
    &&& s.len() > 0
    &&& forall|i: int|
        0 <= i < s.len() ==> (#[trigger] s[i]) != '/' && !text::spec_is_whitespace(s[i])
}

proof fn lemma_no_pieces(s: Seq<char>)
    requires
        forall|i: int| 0 <= i < s.len() ==> (#[trigger] s[i]) != '/',
    ensures
        text::pieces(s, Separator::Slash) == seq![s],
    decreases s.len(),
{
    if s.len() > 0 {
        let rest = s.drop_last();
        assert forall|i: int| 0 <= i < rest.len() implies (#[trigger] rest[i]) != '/' by {
            assert(rest[i] == s[i]);
        }
        lemma_no_pieces(rest);
        assert(s[s.len() - 1] != '/');
        assert(rest.push(s.last()) =~= s);
        assert(text::pieces(s, Separator::Slash) =~= seq![s]);
    } else {
        assert(s =~= Seq::<char>::empty());
        assert(text::pieces(s, Separator::Slash) =~= seq![s]);
    }
}

proof fn lemma_two_pieces(a: Seq<char>, b: Seq<char>)
    requires
        forall|i: int| 0 <= i < a.len() ==> (#[trigger] a[i]) != '/',
        forall|i: int| 0 <= i < b.len() ==> (#[trigger] b[i]) != '/',
    ensures
        text::pieces(a + seq!['/'] + b, Separator::Slash) == seq![a, b],
    decreases b.len(),
{
    let whole = a + seq!['/'] + b;
    if b.len() > 0 {
        let rest = b.drop_last();
        assert forall|i: int| 0 <= i < rest.len() implies (#[trigger] rest[i]) != '/' by {
            assert(rest[i] == b[i]);
        }
        lemma_two_pieces(a, rest);
        assert(whole.drop_last() =~= a + seq!['/'] + rest);
        assert(whole.last() == b[b.len() - 1]);
        assert(rest.push(b.last()) =~= b);
        assert(text::pieces(whole, Separator::Slash) =~= seq![a, b]);
    } else {
        lemma_no_pieces(a);
        assert(whole.drop_last() =~= a);
        assert(whole.last() == '/');
        assert(b =~= Seq::<char>::empty());
        assert(text::pieces(whole, Separator::Slash) =~= seq![a, b]);
    }
}

proof fn lemma_untouched(s: Seq<char>)
    requires
        s.len() > 0,
        !text::spec_is_whitespace(s[0]),
        !text::spec_is_whitespace(s.last()),
        s.last() != '/',
        !github::ends_in_git(s),
    ensures
        github::without_git(github::without_slashes(text::trimmed(s))) == s,
{
    let t = text::trimmed_start(s);
    assert(t == s);
    assert(text::trimmed_end(s) == s);
}

/// A repository is named by its owner and its name with a slash between them,
/// alone or behind the address of the service.
pub proof fn law_repositories_are_named(owner: Seq<char>, name: Seq<char>)
    requires
        plain(owner),
        plain(name),
        !github::ends_in_git(owner + seq!['/'] + name),
    ensures
        github::owner_and_name(owner + seq!['/'] + name) == Some((owner, name)),
        github::owner_and_name("https://github.com/"@ + (owner + seq!['/'] + name)) == Some(
            (owner, name),
        ),
        github::owner_and_name("http://github.com/"@ + (owner + seq!['/'] + name)) == Some(
            (owner, name),
        ),
{
    reveal_strlit("https://github.com/");
    reveal_strlit("http://github.com/");
    let base = owner + seq!['/'] + name;
    let n = base.len() as int;
    assert(base[0] == owner[0]);
    assert(base.last() == name[name.len() - 1]);
    lemma_untouched(base);
    lemma_two_pieces(owner, name);
    let https = "https://github.com/"@;
    let http = "http://github.com/"@;
    assert(https.len() == 19 && https[6] == '/' && https[7] == '/' && https[0] == 'h' && https[4]
        == 's');
    assert(http.len() == 18 && http[5] == '/' && http[6] == '/' && http[0] == 'h' && http[4]
        == ':');
    assert forall|i: int, j: int| 0 <= i < j < n && base[i] == '/' && base[j] == '/' implies false by {
        if i < owner.len() {
            assert(base[i] == owner[i]);
        } else {
            assert(base[j] == name[j - owner.len() - 1]);
        }
    }
    if https.is_prefix_of(base) {
        assert(base.subrange(0, 19)[6] == base[6]);
        assert(base.subrange(0, 19)[7] == base[7]);
    }
    if http.is_prefix_of(base) {
        assert(base.subrange(0, 18)[5] == base[5]);
        assert(base.subrange(0, 18)[6] == base[6]);
    }
    let long = https + base;
    assert(long.last() == base.last() && long[0] == 'h');
    lemma_git_behind(https, base);
    assert(!text::spec_is_whitespace('h'));
    lemma_untouched(long);
    assert(long.subrange(0, 19) =~= https);
    assert(long.skip(19) =~= base);
    let short = http + base;
    assert(short.last() == base.last() && short[0] == 'h');
    lemma_git_behind(http, base);
    lemma_untouched(short);
    assert(short.subrange(0, 18) =~= http);
    assert(short.skip(18) =~= base);
    if https.is_prefix_of(short) {
        assert(short.subrange(0, 19)[4] == short[4]);
        assert(short[4] == http[4]);
    }
}

proof fn lemma_git_behind(prefix: Seq<char>, base: Seq<char>)
    requires
        prefix.len() > 0,
        prefix.last() == '/',
        base.len() > 1,
        !github::ends_in_git(base),
        base.len() >= 3,
    ensures
        !github::ends_in_git(prefix + base),
{
    let whole = prefix + base;
    let n = whole.len() as int;
    if github::ends_in_git(whole) {
        let m = base.len() as int;
        assert(whole[n - 1] == base[m - 1]);
        assert(whole[n - 2] == base[m - 2]);
        assert(whole[n - 3] == base[m - 3]);
        if m >= 4 {
            assert(whole[n - 4] == base[m - 4]);
        } else {
            assert(whole[n - 4] == prefix.last());
        }
    }
}

/// What a repository is named by are two texts that make up the short form of
/// what was given, and neither is empty or holds a slash.
pub proof fn law_named_repositories_have_two_parts(value: Seq<char>)
    ensures
        github::owner_and_name(value) matches Some((owner, name)) ==> {
            &&& github::slug(value) == owner + seq!['/'] + name
            &&& owner.len() > 0
            &&& name.len() > 0
            &&& forall|i: int| 0 <= i < owner.len() ==> (#[trigger] owner[i]) != '/'
            &&& forall|i: int| 0 <= i < name.len() ==> (#[trigger] name[i]) != '/'
        },
{
    if let Some((owner, name)) = github::owner_and_name(value) {
        let s = github::slug(value);
        let parts = text::pieces(s, Separator::Slash);
        text_laws::law_pieces_make_up_the_text(s);
        assert(parts.drop_last() =~= seq![owner]);
        assert(text::joined(seq![owner], seq!['/']) == owner);
        assert(text::joined(parts, seq!['/']) == owner + seq!['/'] + name);
        assert forall|i: int| 0 <= i < owner.len() implies (#[trigger] owner[i]) != '/' by {
            assert(parts[0][i] != '/');
        }
        assert forall|i: int| 0 <= i < name.len() implies (#[trigger] name[i]) != '/' by {
            assert(parts[1][i] != '/');
        }
    }
}

/// The fingerprint of a request covers its query and then its variables.
pub proof fn law_fingerprints_cover_the_request(query: Seq<char>, variables: Seq<char>)
    ensures
        github::fingerprint(query, variables) == hash::fnv_from(
            hash::fnv(encode_utf8(query)),
            encode_utf8(variables),
        ),
{
    hash::law_hash_of_joined(hash::FNV_OFFSET, encode_utf8(query), encode_utf8(variables));
}

} // verus!
