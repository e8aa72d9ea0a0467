//! Saved site credentials (for auto-login in members' areas): the list
//! operations. Reading and writing the JSON file is the application's part.
use vstd::prelude::*;
use crate::text::{
    all_ascii, ascii_lower, chars_of, ends_with, eq_ignore_ascii_case, lowercase, string_of, to_lowercase, trim, trimmed,
};
use crate::m3u8::eq_chars;
use crate::sniffer::eq_ignore_ascii_case_str;
use crate::types::opt_view;
use crate::urls::{host_str, url_host};

verus! {

/// Login of one site. `host` matches by suffix.
#[derive(Debug, Default)]
pub struct SiteCredential {
    pub host: String,
    pub email: String,
    pub password: String,
}

pub struct SiteCredentialView {
    pub host: Seq<char>,
    pub email: Seq<char>,
    pub password: Seq<char>,
}

impl View for SiteCredential {
    type V = SiteCredentialView;

    open spec fn view(&self) -> SiteCredentialView {
        SiteCredentialView { host: self.host@, email: self.email@, password: self.password@ }
    }
}

pub open spec fn creds_view(v: Seq<SiteCredential>) -> Seq<SiteCredentialView> {
    v.map_values(|c: SiteCredential| c@)
}

impl SiteCredential {
    /// A copy of this credential.
    pub fn duplicate(&self) -> (r: Self)
        ensures
            r@ == self@,
    {
        SiteCredential { host: self.host.clone(), email: self.email.clone(), password: self.password.clone() }
    }
}

/// Index of the first credential whose host equals `h` ignoring ASCII case.
pub open spec fn host_index_from(l: Seq<SiteCredentialView>, h: Seq<char>, i: int) -> Option<int>
    decreases l.len() - i,
{
    if i < 0 || i >= l.len() {
        None
    } else if eq_ignore_ascii_case(l[i].host, h) {
        Some(i)
    } else {
        host_index_from(l, h, i + 1)
    }
}

/// The host as `upsert` stores it: trimmed, then lower-cased.
pub open spec fn normal_host(host: Seq<char>) -> Seq<char> {
    lowercase(trim(host))
}

/// `upsert(list, cred)`: the credential of an existing host (ASCII case
/// ignored) gets the new email and password; otherwise the credential is
/// appended with its host normalised.
pub open spec fn upserted(l: Seq<SiteCredentialView>, c: SiteCredentialView) -> Seq<SiteCredentialView> {
    let h = normal_host(c.host);
    match host_index_from(l, h, 0) {
        Some(i) => l.update(i, SiteCredentialView { host: l[i].host, email: c.email, password: c.password }),
        None => l.push(SiteCredentialView { host: h, email: c.email, password: c.password }),
    }
}

/// `remove(list, host)`: every credential whose host equals `host`
/// (ASCII case ignored) is dropped; the others keep their order.
pub open spec fn removed(l: Seq<SiteCredentialView>, host: Seq<char>) -> Seq<SiteCredentialView>
    decreases l.len(),
{
    if l.len() == 0 {
        l
    } else if eq_ignore_ascii_case(l.last().host, host) {
        removed(l.drop_last(), host)
    } else {
        removed(l.drop_last(), host).push(l.last())
    }
}

/// A stored host `stored` serves the site `host` (both lower-cased): equal,
/// a suffix of it, or (for a non-empty given host) the other way round.
pub open spec fn host_matches(host_lower: Seq<char>, stored_lower: Seq<char>) -> bool {
    stored_lower.len() > 0 && (host_lower == stored_lower || ends_with(host_lower, "."@ + stored_lower)
        || ends_with(host_lower, stored_lower) || (host_lower.len() > 0 && ends_with(stored_lower, host_lower)))
}

/// Index of the first credential serving `host`, from index `i`.
pub open spec fn serving_index_from(l: Seq<SiteCredentialView>, host: Seq<char>, i: int) -> Option<int>
    decreases l.len() - i,
{
    if i < 0 || i >= l.len() {
        None
    } else if host_matches(lowercase(host), lowercase(l[i].host)) {
        Some(i)
    } else {
        serving_index_from(l, host, i + 1)
    }
}

fn host_index(l: &Vec<SiteCredential>, h: &Vec<char>) -> (r: Option<usize>)
    ensures
        match r {
            Some(i) => host_index_from(creds_view(l@), h@, 0) == Some(i as int) && i < l@.len(),
            None => host_index_from(creds_view(l@), h@, 0) is None,
        },
{
    let hs = string_of(h);
    let mut i: usize = 0;
    while i < l.len()
        invariant
            i <= l@.len(),
            hs@ == h@,
            host_index_from(creds_view(l@), h@, 0) == host_index_from(creds_view(l@), h@, i as int),
        decreases l@.len() - i,
    {
        let hv = chars_of(l[i].host.as_str());
        if eq_ignore_ascii_case_str(&hv, hs.as_str()) {
            return Some(i);
        }
        i += 1;
    }
    None
}

/// `upsert(list, cred)` on the loaded list (the caller saves it).
pub fn upsert(list: &mut Vec<SiteCredential>, cred: SiteCredential)
    ensures
        creds_view(final(list)@) == upserted(creds_view(old(list)@), cred@),
{
    let hv = chars_of(cred.host.as_str());
    let t = trimmed(&hv, 0, hv.len());
    proof {
        assert(hv@.subrange(0, hv@.len() as int) == hv@);
    }
    let ts = string_of(&t);
    let host = to_lowercase(ts.as_str());
    let hl = chars_of(host.as_str());
    let ghost l0 = creds_view(list@);
    match host_index(list, &hl) {
        Some(i) => {
            let existing_host = list[i].host.clone();
            let c = SiteCredential { host: existing_host, email: cred.email, password: cred.password };
            list.set(i, c);
            assert(creds_view(list@) =~= l0.update(i as int, c@));
        },
        None => {
            let c = SiteCredential { host, email: cred.email, password: cred.password };
            list.push(c);
            assert(creds_view(list@) =~= l0.push(c@));
        },
    }
}

/// `remove(list, host)` on the loaded list (the caller saves it).
pub fn remove(list: &mut Vec<SiteCredential>, host: &str)
    ensures
        creds_view(final(list)@) == removed(creds_view(old(list)@), host@),
{
    let ghost l0 = creds_view(list@);
    let mut kept: Vec<SiteCredential> = Vec::new();
    let mut i: usize = 0;
    proof {
        assert(l0.take(0) == Seq::<SiteCredentialView>::empty());
        assert(creds_view(kept@) =~= Seq::<SiteCredentialView>::empty());
    }
    while i < list.len()
        invariant
            i <= list@.len(),
            l0 == creds_view(list@),
            creds_view(kept@) == removed(l0.take(i as int), host@),
        decreases list@.len() - i,
    {
        proof {
            assert(l0.take(i + 1).drop_last() == l0.take(i as int));
            assert(l0.take(i + 1).last() == list@[i as int]@);
        }
        let hv = chars_of(list[i].host.as_str());
        if !eq_ignore_ascii_case_str(&hv, host) {
            let ghost k0 = creds_view(kept@);
            let c = list[i].duplicate();
            kept.push(c);
            assert(creds_view(kept@) =~= k0.push(c@));
        }
        i += 1;
    }
    assert(l0.take(list@.len() as int) == l0);
    *list = kept;
}

fn serves(host_lower: &Vec<char>, stored: &str) -> (r: bool)
    ensures
        r == host_matches(host_lower@, lowercase(stored@)),
{
    let h = to_lowercase(stored);
    let hv = chars_of(h.as_str());
    if hv.len() == 0 {
        return false;
    }
    if eq_chars(host_lower, &hv) {
        return true;
    }
    let mut dotted: Vec<char> = Vec::new();
    dotted.push('.');
    crate::text::push_range(&mut dotted, &hv, 0, hv.len());
    proof {
        assert(hv@.subrange(0, hv@.len() as int) == hv@);
        assert(dotted@ =~= "."@ + hv@) by {
            reveal_strlit(".");
        }
    }
    let ds = string_of(&dotted);
    if crate::text::ends_with_str(host_lower, ds.as_str()) || crate::text::ends_with_str(host_lower, h.as_str()) {
        return true;
    }
    let given = string_of(host_lower);
    host_lower.len() > 0 && crate::text::ends_with_str(&hv, given.as_str())
}

/// `find_for_host(list, host)`: the first credential whose host, lower-cased,
/// is the given host, a suffix of it, or ends with it.
pub fn find_for_host(list: &Vec<SiteCredential>, host: &str) -> (r: Option<SiteCredential>)
    ensures
        match serving_index_from(creds_view(list@), host@, 0) {
            Some(i) => r matches Some(c) && c@ == creds_view(list@)[i],
            None => r is None,
        },
{
    let hl = to_lowercase(host);
    let hv = chars_of(hl.as_str());
    let mut i: usize = 0;
    while i < list.len()
        invariant
            i <= list@.len(),
            hv@ == lowercase(host@),
            serving_index_from(creds_view(list@), host@, 0) == serving_index_from(creds_view(list@), host@, i as int),
        decreases list@.len() - i,
    {
        if serves(&hv, list[i].host.as_str()) {
            return Some(list[i].duplicate());
        }
        i += 1;
    }
    None
}

/// `host_of(url)`: the host of a URL, if it parses and has one.
pub fn host_of(url: &str) -> (r: Option<String>)
    ensures
        opt_view(r) == url_host(url@),
{
    host_str(url)
}

/// Law: saving the same credential twice is the same as saving it once.
pub proof fn lemma_upsert_idempotent(l: Seq<SiteCredentialView>, c: SiteCredentialView)
    ensures
        upserted(upserted(l, c), c) == upserted(l, c),
{
    let h = normal_host(c.host);
    let l1 = upserted(l, c);
    lemma_host_index(l, h, 0);
    lemma_host_index(l1, h, 0);
    match host_index_from(l, h, 0) {
        Some(i) => {
            assert(l1[i].host == l[i].host);
            assert forall|k: int| 0 <= k < l.len() implies l1[k].host == l[k].host by {}
            if host_index_from(l1, h, 0) != Some(i) {
                let j = host_index_from(l1, h, 0);
                if let Some(j) = j {
                    assert(j < i);
                    assert(l1[j].host == l[j].host);
                }
            }
            assert(upserted(l1, c) =~= l1);
        },
        None => {
            let n = l.len() as int;
            assert(l1[n].host == h);
            assert(eq_ignore_ascii_case(h, h));
            if host_index_from(l1, h, 0) != Some(n) {
                let j = host_index_from(l1, h, 0);
                if let Some(j) = j {
                    assert(j < n);
                    assert(l1[j] == l[j]);
                }
            }
            assert(upserted(l1, c) =~= l1);
        },
    }
}

proof fn lemma_host_index(l: Seq<SiteCredentialView>, h: Seq<char>, i: int)
    requires
        0 <= i,
    ensures
        host_index_from(l, h, i) matches Some(j) ==> i <= j < l.len() && eq_ignore_ascii_case(l[j].host, h)
            && forall|k: int| i <= k < j ==> !eq_ignore_ascii_case(#[trigger] l[k].host, h),
        host_index_from(l, h, i) is None ==> forall|k: int| i <= k < l.len() ==> !eq_ignore_ascii_case(#[trigger] l[k].host, h),
    decreases l.len() - i,
{
    if i < l.len() && !eq_ignore_ascii_case(l[i].host, h) {
        lemma_host_index(l, h, i + 1);
    }
}

/// Law: after `remove(list, host)` no credential left has that host.
pub proof fn lemma_removed_gone(l: Seq<SiteCredentialView>, host: Seq<char>)
    ensures
        forall|k: int| 0 <= k < removed(l, host).len() ==> !eq_ignore_ascii_case(#[trigger] removed(l, host)[k].host, host),
        removed(l, host).len() <= l.len(),
    decreases l.len(),
{
    if l.len() > 0 {
        lemma_removed_gone(l.drop_last(), host);
    }
}

proof fn lemma_removed_keeps_all(l: Seq<SiteCredentialView>, host: Seq<char>)
    requires
        forall|k: int| 0 <= k < l.len() ==> !eq_ignore_ascii_case(#[trigger] l[k].host, host),
    ensures
        removed(l, host) == l,
    decreases l.len(),
{
    if l.len() > 0 {
        assert forall|k: int| 0 <= k < l.drop_last().len() implies !eq_ignore_ascii_case(
            #[trigger] l.drop_last()[k].host,
            host,
        ) by {
            assert(l.drop_last()[k] == l[k]);
        }
        lemma_removed_keeps_all(l.drop_last(), host);
        assert(!eq_ignore_ascii_case(l.last().host, host));
        assert(l.drop_last().push(l.last()) == l);
    }
}

/// Law: removing a host that was just saved for the first time gives back
/// the list as it was before saving.
pub proof fn lemma_remove_undoes_new_upsert(l: Seq<SiteCredentialView>, c: SiteCredentialView)
    requires
        host_index_from(l, normal_host(c.host), 0) is None,
    ensures
        removed(upserted(l, c), normal_host(c.host)) == l,
{
    let h = normal_host(c.host);
    lemma_host_index(l, h, 0);
    let l1 = upserted(l, c);
    assert(l1.drop_last() == l);
    assert(eq_ignore_ascii_case(l1.last().host, h));
    lemma_removed_keeps_all(l, h);
}

proof fn lemma_ascii_lower_idem(c: char)
    ensures
        ascii_lower(ascii_lower(c)) == ascii_lower(c),
{
}

/// A host and its ASCII lower-casing are equal ignoring ASCII case, and
/// stand in the same relation to any other host.
proof fn lemma_eq_ignore_lowered(x: Seq<char>, h: Seq<char>)
    ensures
        eq_ignore_ascii_case(x, h.map_values(|c: char| ascii_lower(c))) == eq_ignore_ascii_case(x, h),
        eq_ignore_ascii_case(h.map_values(|c: char| ascii_lower(c)), h),
{
    let m = h.map_values(|c: char| ascii_lower(c));
    assert forall|i: int| 0 <= i < h.len() implies ascii_lower(#[trigger] m[i]) == ascii_lower(h[i]) by {
        lemma_ascii_lower_idem(h[i]);
    }
}

/// Law: on an ASCII host without surrounding whitespace that no saved
/// credential has (ASCII case ignored), saving a credential for it and then
/// removing that host gives back the list as it was.
pub proof fn lemma_remove_undoes_upsert(l: Seq<SiteCredentialView>, c: SiteCredentialView)
    requires
        all_ascii(c.host),
        trim(c.host) == c.host,
        forall|k: int| 0 <= k < l.len() ==> !eq_ignore_ascii_case(#[trigger] l[k].host, c.host),
    ensures
        removed(upserted(l, c), c.host) == l,
{
    let h = normal_host(c.host);
    assert(h == c.host.map_values(|x: char| ascii_lower(x)));
    lemma_host_index(l, h, 0);
    if let Some(j) = host_index_from(l, h, 0) {
        lemma_eq_ignore_lowered(l[j].host, c.host);
    }
    let l1 = upserted(l, c);
    assert(l1.drop_last() == l);
    lemma_eq_ignore_lowered(l1.last().host, c.host);
    assert(eq_ignore_ascii_case(h, c.host));
    assert(eq_ignore_ascii_case(l1.last().host, c.host));
    lemma_removed_keeps_all(l, c.host);
}

} // verus!
