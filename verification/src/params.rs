//! Parameter tables and placeholder substitution.
//!
//! Parameters are global by key, not namespaced per component: two
//! components declaring one key share one effective value. Caller-supplied
//! values always win; a component's default fills a key only when nothing
//! holds it yet. The table keeps its entries ordered by key, and
//! substitution applies each entry in that order, replacing every literal
//! `{{key}}` token; there is no recursive expansion.

use vstd::prelude::*;

use crate::codec::chars_to_string;
use crate::names::{chars_of, str_eq};
use crate::text::{append_chars, clone_chars, replace_all, spec_lex_lt, spec_replace_all, str_lt};

verus! {

/// The views of a sequence of string pairs.
pub open spec fn pairs_view(v: Seq<(String, String)>) -> Seq<(Seq<char>, Seq<char>)> {
    v.map_values(|p: (String, String)| (p.0@, p.1@))
}

/// The index of the first entry with key `k`.
pub open spec fn spec_kv_lookup(entries: Seq<(Seq<char>, Seq<char>)>, k: Seq<char>) -> Option<int>
    decreases entries.len(),
{
    if entries.len() == 0 {
        None
    } else if entries[0].0 == k {
        Some(0int)
    } else {
        match spec_kv_lookup(entries.drop_first(), k) {
            None => None,
            Some(i) => Some(i + 1),
        }
    }
}

/// Where a fresh key `k` belongs: before the first entry whose key reads
/// greater.
pub open spec fn spec_insert_pos(entries: Seq<(Seq<char>, Seq<char>)>, k: Seq<char>) -> int
    decreases entries.len(),
{
    if entries.len() == 0 {
        0
    } else if spec_lex_lt(k, entries[0].0) {
        0
    } else {
        1 + spec_insert_pos(entries.drop_first(), k)
    }
}

/// The table after `k` is set to `v`: an existing entry is overwritten, a
/// fresh key is inserted in key order.
pub open spec fn spec_set(
    entries: Seq<(Seq<char>, Seq<char>)>,
    k: Seq<char>,
    v: Seq<char>,
) -> Seq<(Seq<char>, Seq<char>)> {
    match spec_kv_lookup(entries, k) {
        Some(i) => entries.update(i, (k, v)),
        None => entries.insert(spec_insert_pos(entries, k), (k, v)),
    }
}

/// The table after `k` defaults to `v`: an existing entry wins, a fresh key
/// is inserted in key order.
pub open spec fn spec_set_default(
    entries: Seq<(Seq<char>, Seq<char>)>,
    k: Seq<char>,
    v: Seq<char>,
) -> Seq<(Seq<char>, Seq<char>)> {
    match spec_kv_lookup(entries, k) {
        Some(_) => entries,
        None => entries.insert(spec_insert_pos(entries, k), (k, v)),
    }
}

/// A parameter table: key/value entries held in key order.
pub struct Params {
    /// The entries, ordered by key.
    pub entries: Vec<(String, String)>,
}

impl Params {
    /// The model: the entries' views in order.
    pub open spec fn view_entries(&self) -> Seq<(Seq<char>, Seq<char>)> {
        pairs_view(self.entries@)
    }

    /// An empty table.
    pub fn new() -> (r: Params)
        ensures
            r.view_entries() == Seq::<(Seq<char>, Seq<char>)>::empty(),
    {
        let r = Params { entries: Vec::new() };
        proof {
            assert(r.view_entries() =~= Seq::<(Seq<char>, Seq<char>)>::empty());
        }
        r
    }

    /// The value at `key`, if one is held.
    #[verifier::loop_isolation(false)]
    pub fn get<'a>(&'a self, key: &str) -> (r: Option<&'a String>)
        ensures
            r is Some <==> spec_kv_lookup(self.view_entries(), key@) is Some,
            r is Some ==> r->0@ == self.view_entries()[spec_kv_lookup(
                self.view_entries(),
                key@,
            )->0].1,
    {
        let ghost all = self.view_entries();
        let mut i: usize = 0;
        proof {
            assert(all.skip(0) =~= all);
        }
        while i < self.entries.len()
            invariant
                0 <= i <= self.entries@.len(),
                ({
                    let rest = spec_kv_lookup(all.skip(i as int), key@);
                    let whole = spec_kv_lookup(all, key@);
                    &&& (whole is Some <==> rest is Some)
                    &&& whole is Some ==> whole->0 == rest->0 + i
                }),
            decreases self.entries@.len() - i,
        {
            proof {
                assert(all.skip(i as int)[0] == all[i as int]);
                assert(all.skip(i as int).drop_first() =~= all.skip(i as int + 1));
            }
            if str_eq(self.entries[i].0.as_str(), key) {
                return Some(&self.entries[i].1);
            }
            i += 1;
        }
        proof {
            assert(all.skip(self.entries@.len() as int) =~= Seq::<(Seq<char>, Seq<char>)>::empty());
        }
        None
    }

    /// Sets `key` to `value`, as `spec_set` says.
    #[verifier::loop_isolation(false)]
    pub fn set(&mut self, key: &str, value: &str)
        ensures
            final(self).view_entries() == spec_set(old(self).view_entries(), key@, value@),
    {
        let ghost all = old(self).view_entries();
        let mut i: usize = 0;
        proof {
            assert(all.skip(0) =~= all);
        }
        while i < self.entries.len()
            invariant
                0 <= i <= self.entries@.len(),
                *self == *old(self),
                ({
                    let rest = spec_kv_lookup(all.skip(i as int), key@);
                    let whole = spec_kv_lookup(all, key@);
                    &&& (whole is Some <==> rest is Some)
                    &&& whole is Some ==> whole->0 == rest->0 + i
                }),
                forall|j: int| 0 <= j < i ==> all[j].0 != key@,
            decreases self.entries@.len() - i,
        {
            proof {
                assert(all.skip(i as int)[0] == all[i as int]);
                assert(all.skip(i as int).drop_first() =~= all.skip(i as int + 1));
            }
            if str_eq(self.entries[i].0.as_str(), key) {
                self.entries.set(i, (key.to_owned(), value.to_owned()));
                proof {
                    assert(self.view_entries() =~= all.update(i as int, (key@, value@)));
                }
                return ;
            }
            i += 1;
        }
        proof {
            assert(all.skip(self.entries@.len() as int) =~= Seq::<(Seq<char>, Seq<char>)>::empty());
        }
        self.insert_fresh(key, value);
    }

    /// Defaults `key` to `value`, as `spec_set_default` says: an existing
    /// entry wins.
    #[verifier::loop_isolation(false)]
    pub fn set_default(&mut self, key: &str, value: &str)
        ensures
            final(self).view_entries() == spec_set_default(old(self).view_entries(), key@, value@),
    {
        let ghost all = old(self).view_entries();
        let mut i: usize = 0;
        proof {
            assert(all.skip(0) =~= all);
        }
        while i < self.entries.len()
            invariant
                0 <= i <= self.entries@.len(),
                *self == *old(self),
                ({
                    let rest = spec_kv_lookup(all.skip(i as int), key@);
                    let whole = spec_kv_lookup(all, key@);
                    &&& (whole is Some <==> rest is Some)
                    &&& whole is Some ==> whole->0 == rest->0 + i
                }),
            decreases self.entries@.len() - i,
        {
            proof {
                assert(all.skip(i as int)[0] == all[i as int]);
                assert(all.skip(i as int).drop_first() =~= all.skip(i as int + 1));
            }
            if str_eq(self.entries[i].0.as_str(), key) {
                return ;
            }
            i += 1;
        }
        proof {
            assert(all.skip(self.entries@.len() as int) =~= Seq::<(Seq<char>, Seq<char>)>::empty());
        }
        self.insert_fresh(key, value);
    }

    /// Inserts a key known to be fresh at its ordered position.
    #[verifier::loop_isolation(false)]
    fn insert_fresh(&mut self, key: &str, value: &str)
        requires
            spec_kv_lookup(old(self).view_entries(), key@) is None,
        ensures
            final(self).view_entries() == old(self).view_entries().insert(
                spec_insert_pos(old(self).view_entries(), key@),
                (key@, value@),
            ),
    {
        let ghost all = old(self).view_entries();
        let mut p: usize = 0;
        proof {
            assert(all.skip(0) =~= all);
        }
        while p < self.entries.len() && !str_lt(key, self.entries[p].0.as_str())
            invariant
                0 <= p <= self.entries@.len(),
                *self == *old(self),
                spec_insert_pos(all, key@) == p + spec_insert_pos(all.skip(p as int), key@),
            decreases self.entries@.len() - p,
        {
            proof {
                assert(all.skip(p as int)[0] == all[p as int]);
                assert(all.skip(p as int).drop_first() =~= all.skip(p as int + 1));
            }
            p += 1;
        }
        proof {
            if p < self.entries@.len() {
                assert(all.skip(p as int)[0] == all[p as int]);
                assert(spec_insert_pos(all.skip(p as int), key@) == 0);
            } else {
                assert(all.skip(p as int) =~= Seq::<(Seq<char>, Seq<char>)>::empty());
            }
        }
        self.entries.insert(p, (key.to_owned(), value.to_owned()));
        proof {
            assert(self.view_entries() =~= all.insert(p as int, (key@, value@)));
        }
    }
}

/// The literal token that substitutes for `key`: the key between double
/// braces.
pub open spec fn spec_token(k: Seq<char>) -> Seq<char> {
    seq!['{', '{'] + k + seq!['}', '}']
}

/// The text with every entry's token replaced by its value, entry by entry
/// in table order.
pub open spec fn spec_apply_params(text: Seq<char>, entries: Seq<(Seq<char>, Seq<char>)>) -> Seq<
    char,
>
    decreases entries.len(),
{
    if entries.len() == 0 {
        text
    } else {
        spec_apply_params(
            spec_replace_all(text, spec_token(entries[0].0), entries[0].1),
            entries.drop_first(),
        )
    }
}

/// Replaces every `{{key}}` token in `s` by the table's value for `key`,
/// as `spec_apply_params` says.
#[verifier::loop_isolation(false)]
pub fn apply_params_str(s: &str, params: &Params) -> (r: String)
    ensures
        r@ == spec_apply_params(s@, params.view_entries()),
{
    let ghost all = params.view_entries();
    let mut text = chars_of(s);
    let mut i: usize = 0;
    proof {
        assert(all.skip(0) =~= all);
    }
    while i < params.entries.len()
        invariant
            0 <= i <= params.entries@.len(),
            spec_apply_params(s@, all) == spec_apply_params(text@, all.skip(i as int)),
        decreases params.entries@.len() - i,
    {
        proof {
            assert(all.skip(i as int)[0] == all[i as int]);
            assert(all.skip(i as int).drop_first() =~= all.skip(i as int + 1));
        }
        let mut token: Vec<char> = Vec::new();
        token.push('{');
        token.push('{');
        let kc = chars_of(params.entries[i].0.as_str());
        append_chars(&mut token, &kc);
        token.push('}');
        token.push('}');
        proof {
            assert(token@ =~= spec_token(all[i as int].0));
        }
        let vc = chars_of(params.entries[i].1.as_str());
        text = replace_all(&text, &token, &vc);
        i += 1;
    }
    proof {
        assert(all.skip(params.entries@.len() as int) =~= Seq::<(Seq<char>, Seq<char>)>::empty());
    }
    chars_to_string(&text)
}

} // verus!

verus! {

/// Appending a pair appends its view.
pub proof fn lemma_pairs_view_push(v: Seq<(String, String)>, e: (String, String))
    ensures
        pairs_view(v.push(e)) =~= pairs_view(v).push((e.0@, e.1@)),
{
    assert forall|i: int| 0 <= i < v.len() + 1 implies pairs_view(v.push(e))[i] == pairs_view(
        v,
    ).push((e.0@, e.1@))[i] by {
        if i < v.len() {
            assert(v.push(e)[i] == v[i]);
        } else {
            assert(v.push(e)[i] == e);
        }
    }
}

impl Params {
    /// A table holding exactly the given entries, in their order.
    #[verifier::loop_isolation(false)]
    pub fn from_entries(v: &Vec<(String, String)>) -> (r: Params)
        ensures
            r.view_entries() == pairs_view(v@),
    {
        let mut entries: Vec<(String, String)> = Vec::new();
        let mut i: usize = 0;
        while i < v.len()
            invariant
                0 <= i <= v@.len(),
                entries@.len() == i,
                forall|j: int|
                    0 <= j < i ==> (#[trigger] entries@[j]).0@ == v@[j].0@ && entries@[j].1@
                        == v@[j].1@,
            decreases v@.len() - i,
        {
            let k = v[i].0.clone();
            let val = v[i].1.clone();
            entries.push((k, val));
            i += 1;
        }
        let r = Params { entries };
        proof {
            assert(r.view_entries() =~= pairs_view(v@));
        }
        r
    }

    /// A copy of the table, equal in the model.
    #[verifier::loop_isolation(false)]
    pub fn duplicate(&self) -> (r: Params)
        ensures
            r.view_entries() == self.view_entries(),
    {
        let mut entries: Vec<(String, String)> = Vec::new();
        let mut i: usize = 0;
        while i < self.entries.len()
            invariant
                0 <= i <= self.entries@.len(),
                entries@.len() == i,
                forall|j: int|
                    0 <= j < i ==> (#[trigger] entries@[j]).0@ == self.entries@[j].0@
                        && entries@[j].1@ == self.entries@[j].1@,
            decreases self.entries@.len() - i,
        {
            let k = self.entries[i].0.clone();
            let v = self.entries[i].1.clone();
            entries.push((k, v));
            i += 1;
        }
        let r = Params { entries };
        proof {
            assert(r.view_entries() =~= self.view_entries());
        }
        r
    }
}

} // verus!

verus! {

/// An ASCII blank: space, tab, carriage return or line feed.
pub open spec fn spec_is_blank(c: char) -> bool {
    c == ' ' || c == '\t' || c == '\r' || c == '\n'
}

/// `s` without leading blanks.
pub open spec fn spec_trim_blank_leading(s: Seq<char>) -> Seq<char>
    decreases s.len(),
{
    if s.len() > 0 && spec_is_blank(s[0]) {
        spec_trim_blank_leading(s.drop_first())
    } else {
        s
    }
}

/// `s` without trailing blanks.
pub open spec fn spec_trim_blank_trailing(s: Seq<char>) -> Seq<char>
    decreases s.len(),
{
    if s.len() > 0 && spec_is_blank(s[s.len() - 1]) {
        spec_trim_blank_trailing(s.drop_last())
    } else {
        s
    }
}

/// `s` without leading and trailing blanks.
pub open spec fn spec_trim_blank(s: Seq<char>) -> Seq<char> {
    spec_trim_blank_trailing(spec_trim_blank_leading(s))
}

/// Why a key=value argument is refused.
#[derive(Debug)]
pub enum KvError {
    /// The argument holds no equals sign.
    NotKeyValue(String),
    /// The key left of the equals sign is blank.
    EmptyKey(String),
}

/// Why a key=value argument is refused, in the model.
pub enum KvErrorV {
    /// The argument holds no equals sign.
    NotKeyValue(Seq<char>),
    /// The key left of the equals sign is blank.
    EmptyKey(Seq<char>),
}

impl View for KvError {
    type V = KvErrorV;

    open spec fn view(&self) -> KvErrorV {
        match self {
            KvError::NotKeyValue(s) => KvErrorV::NotKeyValue(s@),
            KvError::EmptyKey(s) => KvErrorV::EmptyKey(s@),
        }
    }
}

/// Folds key=value arguments into a table: each splits at its first
/// equals sign, the key is trimmed of blanks and must not be empty, and a
/// later value for a key overwrites an earlier one.
pub open spec fn spec_parse_kv(
    items: Seq<Seq<char>>,
    acc: Seq<(Seq<char>, Seq<char>)>,
) -> Result<Seq<(Seq<char>, Seq<char>)>, KvErrorV>
    decreases items.len(),
{
    if items.len() == 0 {
        Ok(acc)
    } else {
        let item = items[0];
        match crate::stealth::spec_find_sub(item, "="@) {
            None => Err(KvErrorV::NotKeyValue(item)),
            Some(i) => {
                let key = spec_trim_blank(item.take(i));
                let val = item.skip(i + 1);
                if key.len() == 0 {
                    Err(KvErrorV::EmptyKey(item))
                } else {
                    spec_parse_kv(items.drop_first(), spec_set(acc, key, val))
                }
            },
        }
    }
}

/// Removes leading blanks, mirroring `spec_trim_blank_leading`.
#[verifier::loop_isolation(false)]
fn trim_blank_leading_in_place(v: &mut Vec<char>)
    ensures
        final(v)@ == spec_trim_blank_leading(old(v)@),
{
    while v.len() > 0 && (v[0] == ' ' || v[0] == '\t' || v[0] == '\r' || v[0] == '\n')
        invariant
            spec_trim_blank_leading(old(v)@) == spec_trim_blank_leading(v@),
        decreases v@.len(),
    {
        let ghost before = v@;
        v.remove(0);
        proof {
            assert(v@ =~= before.drop_first());
        }
    }
}

/// Removes trailing blanks, mirroring `spec_trim_blank_trailing`.
#[verifier::loop_isolation(false)]
fn trim_blank_trailing_in_place(v: &mut Vec<char>)
    ensures
        final(v)@ == spec_trim_blank_trailing(old(v)@),
{
    while v.len() > 0 && (v[v.len() - 1] == ' ' || v[v.len() - 1] == '\t' || v[v.len() - 1]
        == '\r' || v[v.len() - 1] == '\n')
        invariant
            spec_trim_blank_trailing(old(v)@) == spec_trim_blank_trailing(v@),
        decreases v@.len(),
    {
        let ghost before = v@;
        v.pop();
        proof {
            assert(v@ =~= before.drop_last());
        }
    }
}

/// Parses key=value arguments into a table, as `spec_parse_kv` says.
#[verifier::loop_isolation(false)]
pub fn parse_key_value_args(items: &Vec<String>) -> (r: Result<Params, KvError>)
    ensures
        ({
            let post = spec_parse_kv(
                crate::resolve::strings_view(items@),
                Seq::<(Seq<char>, Seq<char>)>::empty(),
            );
            &&& r is Ok <==> post is Ok
            &&& r is Ok ==> r->Ok_0.view_entries() == post->Ok_0
            &&& r is Err ==> r->Err_0@ == post->Err_0
        }),
{
    let ghost iv = crate::resolve::strings_view(items@);
    let mut out = Params::new();
    let eq_pat = chars_of("=");
    let mut i: usize = 0;
    proof {
        assert(iv.skip(0) =~= iv);
    }
    while i < items.len()
        invariant
            0 <= i <= items@.len(),
            eq_pat@ == "="@,
            spec_parse_kv(iv, Seq::<(Seq<char>, Seq<char>)>::empty()) == spec_parse_kv(
                iv.skip(i as int),
                out.view_entries(),
            ),
        decreases items@.len() - i,
    {
        let ghost icur = iv.skip(i as int);
        proof {
            assert(icur.len() > 0);
            assert(icur[0] == iv[i as int]);
            assert(icur.drop_first() =~= iv.skip(i as int + 1));
        }
        let item = chars_of(items[i].as_str());
        match crate::stealth::find_sub(&item, &eq_pat) {
            None => {
                return Err(KvError::NotKeyValue(items[i].clone()));
            },
            Some(p) => {
                let n = item.len();
                proof {
                    assert(eq_pat@ == "="@);
                    crate::stealth::lemma_find_sub_in_range(item@, "="@);
                    assert("="@.len() == 1) by {
                        reveal_strlit("=");
                    }
                    assert(item@.len() == n);
                    assert(p + 1 <= n);
                }
                let mut key: Vec<char> = Vec::new();
                let mut k: usize = 0;
                while k < p
                    invariant
                        0 <= k <= p,
                        p <= item@.len(),
                        key@ == item@.take(p as int).take(k as int),
                    decreases p - k,
                {
                    key.push(item[k]);
                    proof {
                        assert(item@.take(p as int).take(k + 1) =~= item@.take(p as int).take(
                            k as int,
                        ).push(item@[k as int]));
                    }
                    k += 1;
                }
                proof {
                    assert(item@.take(p as int).take(p as int) =~= item@.take(p as int));
                }
                trim_blank_leading_in_place(&mut key);
                trim_blank_trailing_in_place(&mut key);
                if key.len() == 0 {
                    return Err(KvError::EmptyKey(items[i].clone()));
                }
                let mut val: Vec<char> = Vec::new();
                let mut m: usize = p + 1;
                proof {
                    assert(val@ =~= item@.subrange(p + 1, p + 1));
                }
                while m < item.len()
                    invariant
                        p + 1 <= m <= item@.len(),
                        val@ == item@.subrange(p + 1, m as int),
                    decreases item@.len() - m,
                {
                    val.push(item[m]);
                    proof {
                        assert(item@.subrange(p + 1, m + 1) =~= item@.subrange(p + 1, m as int).push(
                            item@[m as int],
                        ));
                    }
                    m += 1;
                }
                proof {
                    assert(item@.subrange(p + 1, item@.len() as int) =~= item@.skip(p + 1));
                }
                let key_s = chars_to_string(&key);
                let val_s = chars_to_string(&val);
                out.set(key_s.as_str(), val_s.as_str());
            },
        }
        i += 1;
    }
    proof {
        assert(iv.skip(items@.len() as int) =~= Seq::<Seq<char>>::empty());
    }
    Ok(out)
}

} // verus!
