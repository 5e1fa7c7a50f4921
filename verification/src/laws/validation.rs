//! What validating and finalizing a configuration keeps, and that doing it again changes nothing.

use vstd::prelude::*;
use vstd::string::*;
use vstd::utf8::{encode_utf8, is_ascii_chars, is_ascii_chars_encode_utf8};

use crate::config::{
    canonical_endpoint, canonical_url, default_endpoints, lemma_finalized_endpoints,
    lemma_validated_endpoints, limits_acceptable, lists_url, url_acceptable, urls_distinct,
    validated, with_weight, ConfigView, EndpointConfigView, DEFAULT_ENDPOINTS, MAX_URL_LEN,
};
use crate::text::{
    ascii_lower, control, starts_with_lowered, trim_end, trim_start, trimmed, white_space,
    without_trailing_slashes,
};

verus! {

proof fn lemma_utf8_len_concat(a: Seq<char>, b: Seq<char>)
    ensures
        encode_utf8(a + b).len() == encode_utf8(a).len() + encode_utf8(b).len(),
    decreases a.len(),
{
    if a.len() == 0 {
        assert(a + b == b);
    } else {
        assert((a + b).drop_first() == a.drop_first() + b);
        assert((a + b)[0] == a[0]);
        lemma_utf8_len_concat(a.drop_first(), b);
    }
}

proof fn lemma_without_trailing_slashes(s: Seq<char>)
    ensures
        without_trailing_slashes(s).len() <= s.len(),
        without_trailing_slashes(s) == s.take(without_trailing_slashes(s).len() as int),
        without_trailing_slashes(s).len() > 0 ==> without_trailing_slashes(s).last() != '/',
        without_trailing_slashes(without_trailing_slashes(s)) == without_trailing_slashes(s),
    decreases s.len(),
{
    if s.len() > 0 && s.last() == '/' {
        let shorter = s.drop_last();
        lemma_without_trailing_slashes(shorter);
        let kept = without_trailing_slashes(shorter);
        assert(shorter.take(kept.len() as int) == s.take(kept.len() as int));
    } else {
        assert(s.take(s.len() as int) == s);
    }
}

/// `url` with its scheme in lower case.
spec fn with_lower_scheme(url: Seq<char>) -> Seq<char> {
    if starts_with_lowered(url, "http://"@) {
        "http://"@ + url.skip(7)
    } else if starts_with_lowered(url, "https://"@) {
        "https://"@ + url.skip(8)
    } else {
        url
    }
}

proof fn lemma_lower_scheme(url: Seq<char>)
    requires
        url_acceptable(url),
    ensures
        with_lower_scheme(url).len() == url.len(),
        encode_utf8(with_lower_scheme(url)).len() == encode_utf8(url).len(),
        forall|i: int|
            0 <= i < url.len() ==> !control(#[trigger] with_lower_scheme(url)[i]) && !white_space(
                with_lower_scheme(url)[i],
            ),
        starts_with_lowered(url, "http://"@) ==> "http://"@.is_prefix_of(with_lower_scheme(url)),
        !starts_with_lowered(url, "http://"@) ==> "https://"@.is_prefix_of(with_lower_scheme(url)),
{
    reveal_strlit("http://");
    reveal_strlit("https://");
    let prefix = if starts_with_lowered(url, "http://"@) {
        "http://"@
    } else {
        "https://"@
    };
    let k = prefix.len() as int;
    let front = url.take(k);
    let rest = url.skip(k);
    assert(front + rest == url);
    assert(with_lower_scheme(url) == prefix + rest);
    assert forall|i: int| 0 <= i < front.len() implies '\0' <= #[trigger] front[i] <= '\u{7f}' by {
        assert(ascii_lower(url[i]) == prefix[i]);
    }
    is_ascii_chars_encode_utf8(front);
    is_ascii_chars_encode_utf8(prefix);
    lemma_utf8_len_concat(front, rest);
    lemma_utf8_len_concat(prefix, rest);
    assert forall|i: int| 0 <= i < url.len() implies !control(#[trigger] with_lower_scheme(url)[i])
        && !white_space(with_lower_scheme(url)[i]) by {
        if i >= k {
            assert(with_lower_scheme(url)[i] == url[i]);
        }
    }
    assert(prefix =~= with_lower_scheme(url).take(k));
}

proof fn lemma_trimmed_unchanged(s: Seq<char>)
    requires
        forall|i: int| 0 <= i < s.len() ==> !white_space(#[trigger] s[i]),
    ensures
        trimmed(s) == s,
{
    if s.len() > 0 {
        assert(!white_space(s[0]));
        assert(!white_space(s[s.len() - 1]));
    }
}

/// An endpoint in canonical form has no white space, no control character and no slash at the end
/// in its address, which is no longer than accepted and starts with its scheme in lower case.
/// Nothing but the address is changed, and the canonical form is its own canonical form.
pub proof fn law_canonical_form(endpoint: EndpointConfigView, canonical: EndpointConfigView)
    requires
        canonical_endpoint(endpoint) == Some(canonical),
    ensures
        canonical == (EndpointConfigView { url: canonical.url, ..endpoint }),
        limits_acceptable(canonical),
        encode_utf8(canonical.url).len() <= MAX_URL_LEN,
        forall|i: int|
            0 <= i < canonical.url.len() ==> !control(#[trigger] canonical.url[i]) && !white_space(
                canonical.url[i],
            ),
        canonical.url.len() > 0 && canonical.url.last() != '/',
        "http://"@.is_prefix_of(canonical.url) || "https://"@.is_prefix_of(canonical.url),
        canonical_endpoint(canonical) == Some(canonical),
{
    reveal_strlit("http://");
    reveal_strlit("https://");
    let url = trimmed(endpoint.url);
    let lower = with_lower_scheme(url);
    let short = canonical.url;
    lemma_lower_scheme(url);
    lemma_without_trailing_slashes(lower);
    assert(short == without_trailing_slashes(lower));
    assert(lower == short + lower.skip(short.len() as int));
    lemma_utf8_len_concat(short, lower.skip(short.len() as int));
    assert forall|i: int| 0 <= i < short.len() implies !control(#[trigger] short[i])
        && !white_space(short[i]) by {
        assert(short[i] == lower[i]);
    }
    let prefix = if starts_with_lowered(url, "http://"@) {
        "http://"@
    } else {
        "https://"@
    };
    assert forall|i: int| 0 <= i < prefix.len() implies #[trigger] lower[i] == prefix[i] by {
        assert(lower.take(prefix.len() as int)[i] == prefix[i]);
    }
    lemma_trimmed_unchanged(short);
    if starts_with_lowered(url, "http://"@) {
        if starts_with_lowered(short, "https://"@) {
            assert(ascii_lower(short[4]) == "https://"@[4]);
            assert(short[4] == lower[4]);
        }
        assert(starts_with_lowered(short, "http://"@));
        assert("http://"@ + short.skip(7) =~= short);
        assert("http://"@ =~= short.take(7));
    } else {
        if starts_with_lowered(short, "http://"@) {
            assert(ascii_lower(short[4]) == "http://"@[4]);
            assert(short[4] == lower[4]);
        }
        assert(starts_with_lowered(short, "https://"@));
        assert("https://"@ + short.skip(8) =~= short);
        assert("https://"@ =~= short.take(8));
    }
    assert(canonical_url(short) == short);
}

/// A slash more at the end of an address, and the letter case of its scheme, make no difference to
/// its canonical form.
pub proof fn law_equivalent_addresses(scheme: Seq<char>, rest: Seq<char>)
    ensures
        scheme.len() == 7 && starts_with_lowered(scheme, "http://"@) ==> {
            &&& canonical_url(scheme + rest) == canonical_url("http://"@ + rest)
            &&& canonical_url((scheme + rest).push('/')) == canonical_url(scheme + rest)
        },
        scheme.len() == 8 && starts_with_lowered(scheme, "https://"@) ==> {
            &&& canonical_url(scheme + rest) == canonical_url("https://"@ + rest)
            &&& canonical_url((scheme + rest).push('/')) == canonical_url(scheme + rest)
        },
{
    reveal_strlit("http://");
    reveal_strlit("https://");
    if scheme.len() == 7 && starts_with_lowered(scheme, "http://"@) {
        lemma_same_canonical("http://"@, scheme, rest);
    }
    if scheme.len() == 8 && starts_with_lowered(scheme, "https://"@) {
        lemma_same_canonical("https://"@, scheme, rest);
    }
}

proof fn lemma_same_canonical(prefix: Seq<char>, scheme: Seq<char>, rest: Seq<char>)
    requires
        prefix == "http://"@ || prefix == "https://"@,
        scheme.len() == prefix.len(),
        starts_with_lowered(scheme, prefix),
    ensures
        canonical_url(scheme + rest) == canonical_url(prefix + rest),
        canonical_url((scheme + rest).push('/')) == canonical_url(scheme + rest),
{
    reveal_strlit("http://");
    reveal_strlit("https://");
    let k = prefix.len() as int;
    let url = scheme + rest;
    let plain = prefix + rest;
    let longer = url.push('/');
    assert forall|i: int| 0 <= i < k implies ascii_lower(#[trigger] url[i]) == prefix[i] by {
        assert(ascii_lower(scheme[i]) == prefix[i]);
    }
    assert forall|i: int| 0 <= i < k implies ascii_lower(#[trigger] plain[i]) == prefix[i] by {}
    assert forall|i: int| 0 <= i < k implies ascii_lower(#[trigger] longer[i]) == prefix[i] by {
        assert(longer[i] == url[i]);
    }
    if k == 8 {
        assert(ascii_lower(url[4]) == 's');
        assert(ascii_lower(plain[4]) == 's');
        assert(ascii_lower(longer[4]) == 's');
    }
    assert(url.skip(k) == rest);
    assert(plain.skip(k) == rest);
    assert(longer.skip(k) == rest.push('/'));
    assert(prefix + rest.push('/') == (prefix + rest).push('/'));
    assert((prefix + rest).push('/').drop_last() == prefix + rest);
}

/// The `j`th endpoint of `list` can be used, and no endpoint before it that can be used has the
/// same address.
pub open spec fn first_use(list: Seq<EndpointConfigView>, j: int) -> bool {
    &&& 0 <= j < list.len()
    &&& canonical_endpoint(list[j]) is Some
    &&& forall|i: int|
        0 <= i < j && canonical_endpoint(#[trigger] list[i]) is Some ==> canonical_endpoint(
            list[i],
        ).unwrap().url != canonical_endpoint(list[j]).unwrap().url
}

/// `at` gives, for each endpoint of `kept`, the place in `list` of the first use that it is the
/// canonical form of. The places are in order, and no first use is missing.
pub open spec fn keeps_first_uses(
    list: Seq<EndpointConfigView>,
    kept: Seq<EndpointConfigView>,
    at: Seq<int>,
) -> bool {
    &&& at.len() == kept.len()
    &&& forall|p: int|
        0 <= p < at.len() ==> first_use(list, #[trigger] at[p]) && canonical_endpoint(list[at[p]])
            == Some(kept[p])
    &&& forall|p: int, q: int| 0 <= p < q < at.len() ==> #[trigger] at[p] < #[trigger] at[q]
    &&& forall|j: int| #[trigger] first_use(list, j) ==> at.contains(j)
}

/// Validation keeps the first use of each address and nothing else, in the order of the list, and
/// no address twice.
pub proof fn law_validation_keeps_first_uses(list: Seq<EndpointConfigView>)
    ensures
        exists|at: Seq<int>| keeps_first_uses(list, validated(list), at),
        urls_distinct(validated(list)),
{
    lemma_validated_endpoints(list);
    let at = lemma_first_uses(list);
}

proof fn lemma_first_uses(list: Seq<EndpointConfigView>) -> (at: Seq<int>)
    ensures
        keeps_first_uses(list, validated(list), at),
    decreases list.len(),
{
    if list.len() == 0 {
        Seq::empty()
    } else {
        let shorter = list.drop_last();
        let n = list.len() - 1;
        let kept = validated(shorter);
        let before = lemma_first_uses(shorter);
        assert forall|j: int| 0 <= j < n implies first_use(list, j) == first_use(shorter, j) by {
            assert forall|i: int| 0 <= i <= j implies #[trigger] list[i] == shorter[i] by {}
        }
        let last = canonical_endpoint(list.last());
        let new = last is Some && !lists_url(kept, last.unwrap().url);
        let at = if new {
            before.push(n)
        } else {
            before
        };
        assert(first_use(list, n) == new) by {
            if last is Some {
                lemma_first_use_or_listed(shorter, before, last.unwrap().url);
                assert forall|i: int| 0 <= i < n implies #[trigger] list[i] == shorter[i] by {}
            }
        }
        let all = validated(list);
        assert forall|p: int| 0 <= p < at.len() implies first_use(list, #[trigger] at[p])
            && canonical_endpoint(list[at[p]]) == Some(all[p]) by {
            if p < before.len() {
                assert(first_use(shorter, before[p]));
                assert(at[p] == before[p]);
                assert(list[at[p]] == shorter[at[p]]);
                assert(all[p] == kept[p]);
            }
        }
        assert forall|p: int, q: int| 0 <= p < q < at.len() implies #[trigger] at[p]
            < #[trigger] at[q] by {
            assert(first_use(shorter, before[p]));
            assert(at[p] == before[p]);
            if q < before.len() {
                assert(at[q] == before[q]);
            }
        }
        assert forall|j: int| #[trigger] first_use(list, j) implies at.contains(j) by {
            if j == n {
                assert(at[before.len() as int] == n);
            } else {
                assert(first_use(shorter, j));
                assert(before.contains(j));
                let p = choose|p: int| 0 <= p < before.len() && before[p] == j;
                assert(at[p] == j);
            }
        }
        at
    }
}

proof fn lemma_first_use_or_listed(list: Seq<EndpointConfigView>, at: Seq<int>, url: Seq<char>)
    requires
        keeps_first_uses(list, validated(list), at),
    ensures
        lists_url(validated(list), url) <==> exists|i: int|
            0 <= i < list.len() && canonical_endpoint(#[trigger] list[i]) is Some
                && canonical_endpoint(list[i]).unwrap().url == url,
{
    let kept = validated(list);
    if lists_url(kept, url) {
        let p = choose|p: int| 0 <= p < kept.len() && (#[trigger] kept[p]).url == url;
        assert(first_use(list, at[p]));
        assert(canonical_endpoint(list[at[p]]) is Some);
    }
    if exists|i: int|
        0 <= i < list.len() && canonical_endpoint(#[trigger] list[i]) is Some && canonical_endpoint(
            list[i],
        ).unwrap().url == url {
        let i = choose|i: int|
            0 <= i < list.len() && canonical_endpoint(#[trigger] list[i]) is Some
                && canonical_endpoint(list[i]).unwrap().url == url;
        let j = lemma_first_with_url(list, url, i);
        assert(at.contains(j));
        let p = choose|p: int| 0 <= p < at.len() && at[p] == j;
        assert(canonical_endpoint(list[at[p]]) == Some(kept[p]));
        assert(kept[p].url == url);
    }
}

proof fn lemma_first_with_url(list: Seq<EndpointConfigView>, url: Seq<char>, i: int) -> (j: int)
    requires
        0 <= i < list.len(),
        canonical_endpoint(list[i]) is Some,
        canonical_endpoint(list[i]).unwrap().url == url,
    ensures
        first_use(list, j),
        canonical_endpoint(list[j]).unwrap().url == url,
    decreases i,
{
    if exists|h: int|
        0 <= h < i && canonical_endpoint(#[trigger] list[h]) is Some && canonical_endpoint(
            list[h],
        ).unwrap().url == url {
        let h = choose|h: int|
            0 <= h < i && canonical_endpoint(#[trigger] list[h]) is Some && canonical_endpoint(
                list[h],
            ).unwrap().url == url;
        lemma_first_with_url(list, url, h)
    } else {
        i
    }
}

/// Each endpoint of `list` is its own canonical form.
pub open spec fn all_canonical(list: Seq<EndpointConfigView>) -> bool {
    forall|i: int|
        0 <= i < list.len() ==> canonical_endpoint(#[trigger] list[i]) == Some(list[i])
}

proof fn lemma_canonical_list_kept(list: Seq<EndpointConfigView>)
    requires
        all_canonical(list),
        urls_distinct(list),
    ensures
        validated(list) == list,
    decreases list.len(),
{
    if list.len() > 0 {
        let shorter = list.drop_last();
        assert forall|i: int| 0 <= i < shorter.len() implies canonical_endpoint(
            #[trigger] shorter[i],
        ) == Some(shorter[i]) by {
            assert(shorter[i] == list[i]);
        }
        lemma_canonical_list_kept(shorter);
        let n = list.len() - 1;
        assert(canonical_endpoint(list[n]) == Some(list[n]));
        if lists_url(shorter, list[n].url) {
            let i = choose|i: int|
                0 <= i < shorter.len() && (#[trigger] shorter[i]).url == list[n].url;
            assert(list[i].url != list[n].url);
        }
        assert(shorter.push(list[n]) == list);
    }
}

proof fn lemma_validated_canonical(list: Seq<EndpointConfigView>)
    ensures
        all_canonical(validated(list)),
{
    let kept = validated(list);
    let at = lemma_first_uses(list);
    assert forall|i: int| 0 <= i < kept.len() implies canonical_endpoint(#[trigger] kept[i])
        == Some(kept[i]) by {
        assert(canonical_endpoint(list[at[i]]) == Some(kept[i]));
        law_canonical_form(list[at[i]], kept[i]);
    }
}

/// Validating what was validated changes nothing.
pub proof fn law_validation_idempotent(list: Seq<EndpointConfigView>)
    ensures
        validated(validated(list)) == validated(list),
{
    lemma_validated_canonical(list);
    lemma_validated_endpoints(list);
    lemma_canonical_list_kept(validated(list));
}

/// In a final configuration nothing is left open, batches and concurrency are at least one, the
/// smoothing factor lies between zero and one, and each endpoint has limits in the accepted ranges,
/// a weight and an address of its own.
pub proof fn law_finalized_in_range(config: ConfigView)
    ensures
        config.finalized().server is Some,
        config.finalized().server.unwrap().bind_addr == Some(config.bind_addr()),
        config.finalized().balancer is Some,
        ({
            let settings = config.finalized().balancer.unwrap();
            &&& settings.health_check_interval_secs is Some
            &&& settings.health_check_timeout_secs is Some
            &&& settings.base_cooldown_secs is Some
            &&& settings.max_cooldown_secs is Some
            &&& settings.connect_timeout_ms is Some
            &&& settings.timeout_secs is Some
            &&& settings.pool_idle_timeout_secs is Some
            &&& settings.pool_max_idle_per_host is Some
            &&& settings.max_batch_size matches Some(n) && n >= 1
            &&& settings.max_concurrency matches Some(n) && n >= 1
            &&& settings.latency_smoothing_factor matches Some(factor) && factor.in_unit_range()
            &&& settings.endpoints matches Some(list) && urls_distinct(list) && forall|i: int|
                0 <= i < list.len() ==> limits_acceptable(#[trigger] list[i])
                    && list[i].weight is Some
        }),
{
    lemma_finalized_endpoints(config.balancer_settings());
}

/// Finalizing a final configuration changes nothing, and it stays usable if it was.
pub proof fn law_finalize_idempotent(config: ConfigView)
    ensures
        config.finalized().finalized() == config.finalized(),
        config.finalized().is_usable() == config.is_usable(),
{
    let usable = config.balancer_settings().usable_endpoints();
    let list = usable.map_values(|e: EndpointConfigView| with_weight(e));
    lemma_validated_canonical(config.balancer_settings().requested_endpoints());
    lemma_validated_endpoints(config.balancer_settings().requested_endpoints());
    assert forall|i: int| 0 <= i < list.len() implies canonical_endpoint(#[trigger] list[i])
        == Some(list[i]) by {
        assert(canonical_endpoint(usable[i]) == Some(usable[i]));
    }
    assert forall|i: int, j: int| 0 <= i < j < list.len() implies (#[trigger] list[i]).url != (
    #[trigger] list[j]).url by {
        assert(usable[i].url != usable[j].url);
    }
    lemma_canonical_list_kept(list);
    let once = config.finalized().balancer.unwrap();
    let twice = config.finalized().finalized().balancer.unwrap();
    assert(once.endpoints == Some(list));
    assert(list.map_values(|e: EndpointConfigView| with_weight(e)) =~= list);
    assert(twice.endpoints == Some(list.map_values(|e: EndpointConfigView| with_weight(e))));
}

proof fn lemma_keeps_front(s: Seq<char>, k: int)
    requires
        0 <= k < s.len(),
        s[k] != '/',
    ensures
        without_trailing_slashes(s).len() > k,
    decreases s.len(),
{
    if s.last() == '/' {
        assert(s.drop_last()[k] == s[k]);
        lemma_keeps_front(s.drop_last(), k);
    }
}

/// Without any configuration the balancer has endpoints to use, so it can start.
pub proof fn law_default_configuration_usable()
    ensures
        ConfigView::unset().is_usable(),
        ConfigView::unset().finalized().balancer.unwrap().timeout_secs.unwrap() * 1000 <= u64::MAX,
{
    reveal_strlit("https://arbitrum.drpc.org/");
    reveal_strlit("http://");
    reveal_strlit("https://");
    let list = default_endpoints();
    let last = list.last();
    let url = last.url;
    assert(url == "https://arbitrum.drpc.org/"@);
    lemma_trimmed_unchanged(url);
    assert(is_ascii_chars(url));
    is_ascii_chars_encode_utf8(url);
    assert(starts_with_lowered(url, "https://"@));
    let lower = "https://"@ + url.skip(8);
    lemma_keeps_front(lower, 8);
    lemma_without_trailing_slashes(lower);
    assert(ascii_lower(url[4]) != "http://"@[4]);
    let short = without_trailing_slashes(lower);
    assert(canonical_url(url) == short);
    assert forall|i: int| 0 <= i < 8 implies ascii_lower(#[trigger] short[i]) == "https://"@[i] by {
        assert(short[i] == lower[i]);
    }
    assert(canonical_endpoint(last) is Some);
    let at = lemma_first_uses(list);
    let j = lemma_first_with_url(
        list,
        canonical_endpoint(last).unwrap().url,
        list.len() - 1,
    );
    assert(at.contains(j));
}

/// `scheme` is `http://` or `https://`, with its letters in either case.
pub open spec fn is_scheme(scheme: Seq<char>) -> bool {
    let n = scheme.len() as int;
    &&& n == 7 || n == 8
    &&& scheme[0] == 'h' || scheme[0] == 'H'
    &&& scheme[1] == 't' || scheme[1] == 'T'
    &&& scheme[2] == 't' || scheme[2] == 'T'
    &&& scheme[3] == 'p' || scheme[3] == 'P'
    &&& n == 8 ==> scheme[4] == 's' || scheme[4] == 'S'
    &&& scheme[n - 3] == ':'
    &&& scheme[n - 2] == '/'
    &&& scheme[n - 1] == '/'
}

/// `url` is the address `scheme` and `rest`, with slashes behind it and white space around it. The
/// address has no white space and no control character in it, and something other than slashes
/// behind its scheme.
pub open spec fn written_as(
    url: Seq<char>,
    lead: Seq<char>,
    scheme: Seq<char>,
    rest: Seq<char>,
    slashes: Seq<char>,
    trail: Seq<char>,
) -> bool {
    &&& url == lead + (scheme + rest + slashes) + trail
    &&& forall|i: int| 0 <= i < lead.len() ==> white_space(#[trigger] lead[i])
    &&& forall|i: int| 0 <= i < trail.len() ==> white_space(#[trigger] trail[i])
    &&& is_scheme(scheme)
    &&& rest.len() > 0 && rest.last() != '/'
    &&& forall|i: int|
        0 <= i < rest.len() ==> !white_space(#[trigger] rest[i]) && !control(rest[i])
    &&& forall|i: int| 0 <= i < slashes.len() ==> #[trigger] slashes[i] == '/'
}

proof fn lemma_trim_start(lead: Seq<char>, s: Seq<char>)
    requires
        forall|i: int| 0 <= i < lead.len() ==> white_space(#[trigger] lead[i]),
        s.len() > 0,
        !white_space(s[0]),
    ensures
        trim_start(lead + s) == s,
    decreases lead.len(),
{
    let whole = lead + s;
    if lead.len() > 0 {
        assert(whole[0] == lead[0]);
        let shorter = lead.drop_first();
        assert forall|i: int| 0 <= i < shorter.len() implies white_space(#[trigger] shorter[i]) by {
            assert(shorter[i] == lead[i + 1]);
        }
        lemma_trim_start(shorter, s);
        assert(whole.drop_first() == shorter + s);
    } else {
        assert(whole == s);
    }
}

proof fn lemma_trim_end(s: Seq<char>, trail: Seq<char>)
    requires
        forall|i: int| 0 <= i < trail.len() ==> white_space(#[trigger] trail[i]),
        s.len() > 0,
        !white_space(s.last()),
    ensures
        trim_end(s + trail) == s,
    decreases trail.len(),
{
    let whole = s + trail;
    if trail.len() > 0 {
        assert(whole.last() == trail[trail.len() - 1]);
        let shorter = trail.drop_last();
        assert forall|i: int| 0 <= i < shorter.len() implies white_space(#[trigger] shorter[i]) by {
            assert(shorter[i] == trail[i]);
        }
        lemma_trim_end(s, shorter);
        assert(whole.drop_last() == s + shorter);
    } else {
        assert(whole == s);
    }
}

proof fn lemma_strip_slashes(s: Seq<char>, slashes: Seq<char>)
    requires
        forall|i: int| 0 <= i < slashes.len() ==> #[trigger] slashes[i] == '/',
        s.len() > 0,
        s.last() != '/',
    ensures
        without_trailing_slashes(s + slashes) == s,
    decreases slashes.len(),
{
    let whole = s + slashes;
    if slashes.len() > 0 {
        assert(whole.last() == slashes[slashes.len() - 1]);
        let shorter = slashes.drop_last();
        assert forall|i: int| 0 <= i < shorter.len() implies #[trigger] shorter[i] == '/' by {
            assert(shorter[i] == slashes[i]);
        }
        lemma_strip_slashes(s, shorter);
        assert(whole.drop_last() == s + shorter);
    } else {
        assert(whole == s);
    }
}

proof fn lemma_scheme(scheme: Seq<char>, rest: Seq<char>)
    requires
        is_scheme(scheme),
    ensures
        starts_with_lowered(scheme + rest, "http://"@) == (scheme.len() == 7),
        starts_with_lowered(scheme + rest, "https://"@) == (scheme.len() == 8),
        forall|i: int|
            0 <= i < scheme.len() ==> !white_space(#[trigger] scheme[i]) && !control(scheme[i]),
{
    reveal_strlit("http://");
    reveal_strlit("https://");
    let whole = scheme + rest;
    assert forall|i: int| 0 <= i < scheme.len() implies #[trigger] whole[i] == scheme[i] by {}
    if scheme.len() == 7 {
        assert(ascii_lower(whole[4]) == ':');
        assert forall|i: int| 0 <= i < 7 implies ascii_lower(#[trigger] whole[i])
            == "http://"@[i] by {
            assert(whole[i] == scheme[i]);
        }
        assert("https://"@[4] == 's');
    } else {
        assert(ascii_lower(whole[4]) == 's');
        assert forall|i: int| 0 <= i < 8 implies ascii_lower(#[trigger] whole[i])
            == "https://"@[i] by {
            assert(whole[i] == scheme[i]);
        }
        assert("http://"@[4] == ':');
    }
}

/// An endpoint whose address has a scheme and something behind it is accepted exactly if its rate
/// limit lies between 1 and 100000, its burst size between 1 and 10000, and its address without the
/// white space around it is no longer than 2048 bytes. It then keeps its limits and its weight, and
/// its address stands with its scheme in lower case, without the slashes at its end and without the
/// white space around it.
pub proof fn law_endpoint_accepted(
    endpoint: EndpointConfigView,
    lead: Seq<char>,
    scheme: Seq<char>,
    rest: Seq<char>,
    slashes: Seq<char>,
    trail: Seq<char>,
)
    requires
        written_as(endpoint.url, lead, scheme, rest, slashes, trail),
    ensures
        canonical_endpoint(endpoint) is Some <==> {
            &&& 1 <= endpoint.rate_limit_per_sec <= 100_000
            &&& 1 <= endpoint.burst_size <= 10_000
            &&& encode_utf8(scheme + rest + slashes).len() <= 2048
        },
        canonical_endpoint(endpoint) matches Some(canonical) ==> {
            &&& canonical.url == (if scheme.len() == 7 {
                "http://"@
            } else {
                "https://"@
            }) + rest
            &&& canonical.rate_limit_per_sec == endpoint.rate_limit_per_sec
            &&& canonical.burst_size == endpoint.burst_size
            &&& canonical.weight == endpoint.weight
        },
{
    reveal_strlit("http://");
    reveal_strlit("https://");
    let url = scheme + rest + slashes;
    let behind = rest + slashes;
    let prefix = if scheme.len() == 7 {
        "http://"@
    } else {
        "https://"@
    };
    assert(url == scheme + behind);
    lemma_scheme(scheme, behind);
    assert(url[0] == scheme[0]);
    if slashes.len() > 0 {
        assert(url.last() == slashes[slashes.len() - 1]);
    } else {
        assert(url.last() == rest[rest.len() - 1]);
    }
    assert(!white_space(url.last()));
    assert(endpoint.url == lead + (url + trail));
    assert((url + trail)[0] == url[0]);
    lemma_trim_start(lead, url + trail);
    lemma_trim_end(url, trail);
    assert(trimmed(endpoint.url) == url);
    assert forall|i: int| 0 <= i < url.len() implies !control(#[trigger] url[i]) && !white_space(
        url[i],
    ) by {
        if i < scheme.len() {
            assert(url[i] == scheme[i]);
        } else if i < scheme.len() + rest.len() {
            assert(url[i] == rest[i - scheme.len()]);
        } else {
            assert(url[i] == slashes[i - scheme.len() - rest.len()]);
        }
    }
    assert(url.skip(scheme.len() as int) == behind);
    assert(prefix + behind == prefix + rest + slashes);
    assert((prefix + rest).last() == rest.last());
    lemma_strip_slashes(prefix + rest, slashes);
    assert(canonical_url(url) == prefix + rest);
    assert(is_scheme(prefix));
    lemma_scheme(prefix, rest);
}

/// No other endpoint is accepted: an accepted one has an address with a scheme and something behind
/// it.
#[verifier::rlimit(40)]
pub proof fn law_no_other_endpoint_accepted(endpoint: EndpointConfigView)
    requires
        canonical_endpoint(endpoint) is Some,
    ensures
        exists|
            lead: Seq<char>,
            scheme: Seq<char>,
            rest: Seq<char>,
            slashes: Seq<char>,
            trail: Seq<char>,
        | written_as(endpoint.url, lead, scheme, rest, slashes, trail),
{
    reveal_strlit("http://");
    reveal_strlit("https://");
    let url = trimmed(endpoint.url);
    let (lead, trail) = lemma_trimmed_parts(endpoint.url);
    let prefix = if starts_with_lowered(url, "http://"@) {
        "http://"@
    } else {
        "https://"@
    };
    let k = prefix.len() as int;
    let scheme = url.take(k);
    assert forall|i: int| 0 <= i < k implies ascii_lower(#[trigger] scheme[i]) == prefix[i] by {
        assert(ascii_lower(url[i]) == prefix[i]);
    }
    lemma_is_scheme(scheme, prefix);
    let behind = url.skip(k);
    let lower = prefix + behind;
    let short = canonical_url(url);
    assert(short == without_trailing_slashes(lower));
    lemma_without_trailing_slashes(lower);
    lemma_only_slashes_stripped(lower);
    if short.len() <= k {
        lemma_short_has_no_scheme(lower, short, k);
    }
    let rest = behind.take(short.len() - k);
    let slashes = behind.skip(short.len() - k);
    assert(url == scheme + behind);
    assert(behind == rest + slashes);
    assert(url == scheme + rest + slashes);
    assert(rest.last() == lower[short.len() - 1]);
    assert(short.last() == lower[short.len() - 1]);
    assert forall|i: int| 0 <= i < slashes.len() implies #[trigger] slashes[i] == '/' by {
        assert(slashes[i] == lower[short.len() + i]);
    }
    assert forall|i: int| 0 <= i < rest.len() implies !white_space(#[trigger] rest[i]) && !control(
        rest[i],
    ) by {
        assert(rest[i] == url[k + i]);
    }
    assert(written_as(endpoint.url, lead, scheme, rest, slashes, trail));
}

proof fn lemma_is_scheme(scheme: Seq<char>, prefix: Seq<char>)
    requires
        prefix == "http://"@ || prefix == "https://"@,
        scheme.len() == prefix.len(),
        forall|i: int| 0 <= i < prefix.len() ==> ascii_lower(#[trigger] scheme[i]) == prefix[i],
    ensures
        is_scheme(scheme),
{
    reveal_strlit("http://");
    reveal_strlit("https://");
    assert(ascii_lower(scheme[0]) == 'h');
    assert(ascii_lower(scheme[1]) == 't');
    assert(ascii_lower(scheme[2]) == 't');
    assert(ascii_lower(scheme[3]) == 'p');
    let n = scheme.len() as int;
    if n == 8 {
        assert(ascii_lower(scheme[4]) == 's');
    }
    assert(ascii_lower(scheme[n - 3]) == ':');
    assert(ascii_lower(scheme[n - 2]) == '/');
    assert(ascii_lower(scheme[n - 1]) == '/');
}

proof fn lemma_only_slashes_stripped(s: Seq<char>)
    ensures
        forall|i: int| without_trailing_slashes(s).len() <= i < s.len() ==> #[trigger] s[i] == '/',
    decreases s.len(),
{
    if s.len() > 0 && s.last() == '/' {
        let shorter = s.drop_last();
        lemma_only_slashes_stripped(shorter);
        assert forall|i: int| without_trailing_slashes(s).len() <= i < s.len() implies
            #[trigger] s[i] == '/' by {
            if i < shorter.len() {
                assert(shorter[i] == s[i]);
            }
        }
    }
}

proof fn lemma_short_has_no_scheme(lower: Seq<char>, short: Seq<char>, k: int)
    requires
        "http://"@.is_prefix_of(lower) && k == 7 || "https://"@.is_prefix_of(lower) && k == 8,
        short == without_trailing_slashes(lower),
        short.len() <= k,
    ensures
        !starts_with_lowered(short, "http://"@),
        !starts_with_lowered(short, "https://"@),
{
    reveal_strlit("http://");
    reveal_strlit("https://");
    lemma_without_trailing_slashes(lower);
    assert(lower.take(k)[k - 1] == '/');
    assert(lower.take(k)[k - 2] == '/');
    assert(lower.take(k)[4] == lower[4]);
    if short.len() >= 7 {
        assert(short.last() == lower[short.len() - 1]);
    }
}

proof fn lemma_trimmed_parts(s: Seq<char>) -> (r: (Seq<char>, Seq<char>))
    ensures
        s == r.0 + trimmed(s) + r.1,
        forall|i: int| 0 <= i < r.0.len() ==> white_space(#[trigger] r.0[i]),
        forall|i: int| 0 <= i < r.1.len() ==> white_space(#[trigger] r.1[i]),
{
    let lead = lemma_trim_start_part(s);
    let trail = lemma_trim_end_part(trim_start(s));
    assert(s == lead + trimmed(s) + trail);
    (lead, trail)
}

proof fn lemma_trim_start_part(s: Seq<char>) -> (lead: Seq<char>)
    ensures
        s == lead + trim_start(s),
        forall|i: int| 0 <= i < lead.len() ==> white_space(#[trigger] lead[i]),
    decreases s.len(),
{
    if s.len() > 0 && white_space(s.first()) {
        let lead = lemma_trim_start_part(s.drop_first());
        let longer = seq![s.first()] + lead;
        assert(s == seq![s.first()] + s.drop_first());
        assert(s == longer + trim_start(s));
        assert forall|i: int| 0 <= i < longer.len() implies white_space(#[trigger] longer[i]) by {
            if i > 0 {
                assert(longer[i] == lead[i - 1]);
            }
        }
        longer
    } else {
        assert(s == Seq::<char>::empty() + trim_start(s));
        Seq::empty()
    }
}

proof fn lemma_trim_end_part(s: Seq<char>) -> (trail: Seq<char>)
    ensures
        s == trim_end(s) + trail,
        forall|i: int| 0 <= i < trail.len() ==> white_space(#[trigger] trail[i]),
    decreases s.len(),
{
    if s.len() > 0 && white_space(s.last()) {
        let trail = lemma_trim_end_part(s.drop_last());
        assert(s == s.drop_last().push(s.last()));
        assert(trim_end(s) + trail.push(s.last()) == (trim_end(s) + trail).push(s.last()));
        trail.push(s.last())
    } else {
        assert(s == trim_end(s) + Seq::<char>::empty());
        Seq::empty()
    }
}

/// A final configuration has the usable ones of the configured endpoints, with the limits that they
/// are configured with, and with the configured weight, or 20 where none is configured. Without
/// configured endpoints it has usable ones of four, with a rate limit of 20, a burst size of 25 and
/// the weight 20.
pub proof fn law_finalize_keeps_endpoints(
    config: ConfigView,
    requested: Seq<EndpointConfigView>,
    i: int,
)
    requires
        config.balancer matches Some(balancer) ==> balancer.endpoints matches Some(list) ==> list
            == requested,
        config.balancer is None || config.balancer.unwrap().endpoints is None ==> {
            &&& requested.len() == 4
            &&& forall|k: int|
                0 <= k < 4 ==> (#[trigger] requested[k]) == (EndpointConfigView {
                    url: DEFAULT_ENDPOINTS@[k]@,
                    rate_limit_per_sec: 20,
                    burst_size: 25,
                    weight: Some(20),
                })
        },
    ensures
        config.finalized().balancer.unwrap().endpoints is Some,
        config.finalized().balancer.unwrap().endpoints.unwrap().len() == validated(requested).len(),
        config.is_usable() <==> validated(requested).len() > 0,
        0 <= i < validated(requested).len() ==> {
            let kept = config.finalized().balancer.unwrap().endpoints.unwrap()[i];
            &&& kept.url == validated(requested)[i].url
            &&& kept.rate_limit_per_sec == validated(requested)[i].rate_limit_per_sec
            &&& kept.burst_size == validated(requested)[i].burst_size
            &&& kept.weight == match validated(requested)[i].weight {
                Some(weight) => Some(weight),
                None => Some(20),
            }
        },
{
    if config.balancer is None || config.balancer.unwrap().endpoints is None {
        assert(DEFAULT_ENDPOINTS@.len() == 4);
        assert(requested =~= default_endpoints());
    }
}

} // verus!
