//! The management plane's dispatch: which resource and operation an HTTP
//! method and path name. Reading the request and writing the response
//! happen outside the library; the classification is the logic.

use vstd::prelude::*;

use crate::strutil::push_char;
use vstd::string::StringExecFns;

verus! {

/// The position of the first `'/'`, or the length when there is none.
pub open spec fn first_slash(s: Seq<char>) -> int
    decreases s.len(),
{
    if s.len() == 0 {
        0
    } else if s[0] == '/' {
        0
    } else {
        1 + first_slash(s.drop_first())
    }
}

/// The segments between the slashes, as `str::split` yields them: one more
/// segment than there are slashes, empty segments kept.
pub open spec fn spec_split_slash(s: Seq<char>) -> Seq<Seq<char>>
    decreases s.len(),
{
    let i = first_slash(s);
    if i < 0 || i >= s.len() {
        seq![s]
    } else {
        seq![s.take(i)] + spec_split_slash(s.skip(i + 1))
    }
}

/// `first_slash` points at a slash inside the string, or past a string
/// without one.
pub proof fn lemma_first_slash_props(s: Seq<char>)
    ensures
        0 <= first_slash(s) <= s.len(),
        first_slash(s) < s.len() ==> s[first_slash(s)] == '/',
        forall|j: int| 0 <= j < first_slash(s) ==> s[j] != '/',
    decreases s.len(),
{
    if s.len() == 0 {
    } else if s[0] == '/' {
    } else {
        lemma_first_slash_props(s.drop_first());
        assert(forall|j: int| 1 <= j < s.len() ==> s[j] == s.drop_first()[j - 1]);
    }
}

/// A slash at `k`, with none before it, is the first.
pub proof fn lemma_first_slash_at(s: Seq<char>, k: int)
    requires
        0 <= k < s.len(),
        s[k] == '/',
        forall|j: int| 0 <= j < k ==> s[j] != '/',
    ensures
        first_slash(s) == k,
    decreases k,
{
    if k > 0 {
        assert(forall|j: int| 0 <= j < s.drop_first().len() ==> s.drop_first()[j] == s[j + 1]);
        lemma_first_slash_at(s.drop_first(), k - 1);
    }
}

/// A string without a slash splits into itself alone.
pub proof fn lemma_no_slash_whole(s: Seq<char>)
    requires
        forall|j: int| 0 <= j < s.len() ==> s[j] != '/',
    ensures
        spec_split_slash(s) == seq![s],
{
    lemma_first_slash_props(s);
}

/// Splitting a string whose first slash stands at `k` yields the head
/// segment and the split of the rest.
pub proof fn lemma_split_step(s: Seq<char>, k: int)
    requires
        0 <= k < s.len(),
        s[k] == '/',
        forall|j: int| 0 <= j < k ==> s[j] != '/',
    ensures
        spec_split_slash(s) == seq![s.take(k)] + spec_split_slash(s.skip(k + 1)),
{
    lemma_first_slash_at(s, k);
}

/// Splits a path on `'/'`, keeping empty segments, as `str::split` does.
pub fn split_slash(path: &str) -> (r: Vec<String>)
    ensures
        r@.map_values(|s: String| s@) == spec_split_slash(path@),
{
    let n = path.unicode_len();
    let mut parts: Vec<String> = Vec::new();
    let mut seg = String::new();
    let mut i: usize = 0;
    let ghost whole = path@;
    proof {
        assert(whole.skip(0) =~= whole);
        assert(parts@.map_values(|s: String| s@) =~= Seq::<Seq<char>>::empty());
        assert(Seq::<Seq<char>>::empty() + spec_split_slash(whole) =~= spec_split_slash(whole));
        assert(seg@ =~= whole.subrange(0, 0));
    }
    while i < n
        invariant
            i <= n,
            n == whole.len(),
            whole == path@,
            forall|j: int| i - seg@.len() <= j < i ==> whole[j] != '/',
            seg@ == whole.subrange(i - seg@.len(), i as int),
            seg@.len() <= i,
            spec_split_slash(whole) == parts@.map_values(|s: String| s@) + spec_split_slash(
                whole.skip(i - seg@.len()),
            ),
        decreases n - i,
    {
        let c = path.get_char(i);
        if c == '/' {
            let ghost segv = seg@;
            let ghost p0 = parts@.map_values(|s: String| s@);
            proof {
                let tail = whole.skip(i - segv.len());
                assert(forall|j: int| 0 <= j < tail.len() ==> tail[j] == whole[j + i - segv.len()]);
                assert(tail[segv.len() as int] == '/');
                lemma_split_step(tail, segv.len() as int);
                assert(tail.take(segv.len() as int) =~= segv);
                assert(tail.skip(segv.len() as int + 1) =~= whole.skip(i as int + 1));
                assert(p0 + (seq![segv] + spec_split_slash(whole.skip(i as int + 1))) =~= p0.push(
                    segv,
                ) + spec_split_slash(whole.skip(i as int + 1)));
            }
            parts.push(seg);
            proof {
                assert(parts@.map_values(|s: String| s@) =~= p0.push(segv));
            }
            seg = String::new();
            proof {
                assert(seg@ =~= whole.subrange(i as int + 1, i as int + 1));
            }
        } else {
            push_char(&mut seg, c);
            proof {
                assert(seg@ =~= whole.subrange(i + 1 - seg@.len(), i as int + 1));
            }
        }
        i = i + 1;
    }
    proof {
        let tail = whole.skip(i - seg@.len());
        assert(forall|j: int| 0 <= j < tail.len() ==> tail[j] == whole[j + i - seg@.len()]);
        lemma_no_slash_whole(tail);
        assert(tail =~= seg@);
    }
    parts.push(seg);
    proof {
        assert(parts@.map_values(|s: String| s@) =~= spec_split_slash(whole));
    }
    parts
}

/// One management-plane operation, as the method and path name it.
#[derive(Debug, PartialEq)]
pub enum ApiRequest {
    ListRoutes,
    GetRoute(String),
    CreateRoute,
    DeleteRoute(String),
    ListUpstreams,
    ListStats,
    Unknown,
}

/// The mathematical form of a management-plane operation.
pub enum ApiRequestView {
    ListRoutes,
    GetRoute(Seq<char>),
    CreateRoute,
    DeleteRoute(Seq<char>),
    ListUpstreams,
    ListStats,
    Unknown,
}

impl View for ApiRequest {
    type V = ApiRequestView;

    open spec fn view(&self) -> ApiRequestView {
        match self {
            ApiRequest::ListRoutes => ApiRequestView::ListRoutes,
            ApiRequest::GetRoute(id) => ApiRequestView::GetRoute(id@),
            ApiRequest::CreateRoute => ApiRequestView::CreateRoute,
            ApiRequest::DeleteRoute(id) => ApiRequestView::DeleteRoute(id@),
            ApiRequest::ListUpstreams => ApiRequestView::ListUpstreams,
            ApiRequest::ListStats => ApiRequestView::ListStats,
            ApiRequest::Unknown => ApiRequestView::Unknown,
        }
    }
}

/// Which operation a method and path name: the resource is the segment
/// after the leading slash, the id the segment after that.
pub open spec fn spec_classify(method: Seq<char>, path: Seq<char>) -> ApiRequestView {
    let parts = spec_split_slash(path);
    if parts.len() < 2 {
        ApiRequestView::Unknown
    } else if parts[1] == "routes"@ {
        if method == "GET"@ {
            if parts.len() >= 3 {
                ApiRequestView::GetRoute(parts[2])
            } else {
                ApiRequestView::ListRoutes
            }
        } else if method == "POST"@ && parts.len() < 3 {
            ApiRequestView::CreateRoute
        } else if method == "DELETE"@ && parts.len() >= 3 {
            ApiRequestView::DeleteRoute(parts[2])
        } else {
            ApiRequestView::Unknown
        }
    } else if parts[1] == "upstreams"@ && method == "GET"@ {
        ApiRequestView::ListUpstreams
    } else if parts[1] == "stats"@ && method == "GET"@ {
        ApiRequestView::ListStats
    } else {
        ApiRequestView::Unknown
    }
}

/// Classifies one management request from its method and path.
pub fn classify_request(method: &str, path: &str) -> (r: ApiRequest)
    ensures
        r@ == spec_classify(method@, path@),
{
    let parts = split_slash(path);
    if parts.len() < 2 {
        return ApiRequest::Unknown;
    }
    let m = method.to_owned();
    let get = String::from_str("GET");
    let post = String::from_str("POST");
    let delete = String::from_str("DELETE");
    let routes_word = String::from_str("routes");
    let upstreams_word = String::from_str("upstreams");
    let stats_word = String::from_str("stats");
    if String::eq(&parts[1], &routes_word) {
        if String::eq(&m, &get) {
            if parts.len() >= 3 {
                ApiRequest::GetRoute(parts[2].clone())
            } else {
                ApiRequest::ListRoutes
            }
        } else if String::eq(&m, &post) && parts.len() < 3 {
            ApiRequest::CreateRoute
        } else if String::eq(&m, &delete) && parts.len() >= 3 {
            ApiRequest::DeleteRoute(parts[2].clone())
        } else {
            ApiRequest::Unknown
        }
    } else if String::eq(&parts[1], &upstreams_word) && String::eq(&m, &get) {
        ApiRequest::ListUpstreams
    } else if String::eq(&parts[1], &stats_word) && String::eq(&m, &get) {
        ApiRequest::ListStats
    } else {
        ApiRequest::Unknown
    }
}

} // verus!
