//! The mapping store: records that tie an identifier, its alias and an
//! original URL together, with each of the three unique across the store.
use vstd::prelude::*;
use crate::codec::{encode, lemma_encode_injective, to_base62};

verus! {

/// One stored mapping.
#[derive(Debug)]
pub struct Url {
    pub short_url_integer: u64,
    pub short_url_string: String,
    pub original_url: String,
}

/// What a [`Url`] holds, as mathematical values.
pub ghost struct UrlView {
    pub id: nat,
    pub alias: Seq<char>,
    pub original_url: Seq<char>,
}

impl View for Url {
    type V = UrlView;

    open spec fn view(&self) -> UrlView {
        UrlView {
            id: self.short_url_integer as nat,
            alias: self.short_url_string@,
            original_url: self.original_url@,
        }
    }
}

impl Url {
    /// A field-by-field copy.
    pub fn duplicate(&self) -> (r: Url)
        ensures
            r@ == self@,
    {
        Url {
            short_url_integer: self.short_url_integer,
            short_url_string: self.short_url_string.clone(),
            original_url: self.original_url.clone(),
        }
    }
}

/// Why a registration could not be carried out.
#[derive(Clone, Copy, Debug, PartialEq, Eq, Structural)]
pub enum StoreError {
    /// The largest identifier is already `u64::MAX`: no next one exists.
    IdentifiersExhausted,
}

/// Every record's alias is the encoding of its identifier, and no two
/// records share an identifier, an alias or an original URL.
pub open spec fn records_valid(s: Seq<UrlView>) -> bool {
    &&& forall|i: int| 0 <= i < s.len() ==> #[trigger] s[i].alias == encode(s[i].id)
    &&& forall|i: int, j: int|
        #![trigger s[i], s[j]]
        0 <= i < s.len() && 0 <= j < s.len() && i != j ==> {
            &&& s[i].id != s[j].id
            &&& s[i].alias != s[j].alias
            &&& s[i].original_url != s[j].original_url
        }
}

pub open spec fn has_original_url(s: Seq<UrlView>, url: Seq<char>) -> bool {
    exists|i: int| 0 <= i < s.len() && #[trigger] s[i].original_url == url
}

pub open spec fn has_alias(s: Seq<UrlView>, alias: Seq<char>) -> bool {
    exists|i: int| 0 <= i < s.len() && #[trigger] s[i].alias == alias
}

/// The record whose original URL is `url`, if there is one.
pub open spec fn lookup_original_url(s: Seq<UrlView>, url: Seq<char>) -> Option<UrlView> {
    if has_original_url(s, url) {
        Some(s[choose|i: int| 0 <= i < s.len() && #[trigger] s[i].original_url == url])
    } else {
        None
    }
}

/// The record whose alias is `alias`, if there is one.
pub open spec fn lookup_alias(s: Seq<UrlView>, alias: Seq<char>) -> Option<UrlView> {
    if has_alias(s, alias) {
        Some(s[choose|i: int| 0 <= i < s.len() && #[trigger] s[i].alias == alias])
    } else {
        None
    }
}

/// The largest identifier in `s`, or 0 when `s` is empty.
pub open spec fn max_id(s: Seq<UrlView>) -> nat
    decreases s.len(),
{
    if s.len() == 0 {
        0
    } else if s.last().id > max_id(s.drop_last()) {
        s.last().id
    } else {
        max_id(s.drop_last())
    }
}

/// Whether `r` shares an identifier, an alias or an original URL with a
/// record of `s`.
pub open spec fn collides(s: Seq<UrlView>, r: UrlView) -> bool {
    exists|i: int|
        #![trigger s[i]]
        0 <= i < s.len() && (s[i].id == r.id || s[i].alias == r.alias || s[i].original_url
            == r.original_url)
}

/// The records after inserting `r`: unchanged when `r` collides.
pub open spec fn inserted(s: Seq<UrlView>, r: UrlView) -> Seq<UrlView> {
    if collides(s, r) {
        s
    } else {
        s.push(r)
    }
}

/// The record built for identifier `id` and original URL `url`.
pub open spec fn record_for(id: nat, url: Seq<char>) -> UrlView {
    UrlView { id, alias: encode(id), original_url: url }
}

/// The outcome of registering `url`: the existing record (and `false`) when
/// `url` is known, else a record under the identifier after the largest one
/// (and `true`).
pub open spec fn registration(s: Seq<UrlView>, url: Seq<char>) -> Result<(UrlView, bool), StoreError> {
    match lookup_original_url(s, url) {
        Some(r) => Ok((r, false)),
        None => if max_id(s) < u64::MAX {
            Ok((record_for(max_id(s) + 1, url), true))
        } else {
            Err(StoreError::IdentifiersExhausted)
        },
    }
}

/// The records after registering `url`.
pub open spec fn registered(s: Seq<UrlView>, url: Seq<char>) -> Seq<UrlView> {
    match registration(s, url) {
        Ok((r, true)) => inserted(s, r),
        _ => s,
    }
}

/// The original URL stored under `alias`, if any.
pub open spec fn resolution(s: Seq<UrlView>, alias: Seq<char>) -> Option<Seq<char>> {
    match lookup_alias(s, alias) {
        Some(r) => Some(r.original_url),
        None => None,
    }
}

/// No record of `s` has an identifier above `max_id(s)`.
pub proof fn lemma_max_id_bound(s: Seq<UrlView>)
    ensures
        forall|i: int| 0 <= i < s.len() ==> #[trigger] s[i].id <= max_id(s),
    decreases s.len(),
{
    if s.len() > 0 {
        lemma_max_id_bound(s.drop_last());
        assert forall|i: int| 0 <= i < s.len() implies #[trigger] s[i].id <= max_id(s) by {
            if i < s.len() - 1 {
                assert(s[i] == s.drop_last()[i]);
            }
        }
    }
}


/// Registration keeps the records valid; a record that it makes collides
/// with none already stored and is appended.
pub proof fn lemma_registered_valid(s: Seq<UrlView>, url: Seq<char>)
    requires
        records_valid(s),
    ensures
        records_valid(registered(s, url)),
        registration(s, url) matches Ok((r, true)) ==> !collides(s, r) && registered(s, url)
            == s.push(r),
        registration(s, url) matches Ok((r, _)) ==> r.original_url == url,
{
    if let Ok((r, created)) = registration(s, url) {
        if created {
            lemma_max_id_bound(s);
            assert forall|k: int| 0 <= k < s.len() implies !(#[trigger] s[k].id == r.id
                || s[k].alias == r.alias || s[k].original_url == r.original_url) by {
                lemma_encode_injective(s[k].id, r.id);
            }
            let t = s.push(r);
            assert forall|i: int, j: int|
                #![trigger t[i], t[j]]
                0 <= i < t.len() && 0 <= j < t.len() && i != j implies {
                    &&& t[i].id != t[j].id
                    &&& t[i].alias != t[j].alias
                    &&& t[i].original_url != t[j].original_url
                } by {
                if i < s.len() && j < s.len() {
                    assert(t[i] == s[i] && t[j] == s[j]);
                } else if i < s.len() {
                    assert(t[i] == s[i]);
                } else {
                    assert(t[j] == s[j]);
                }
            }
            assert forall|i: int| 0 <= i < t.len() implies #[trigger] t[i].alias == encode(t[i].id) by {
                if i < s.len() {
                    assert(t[i] == s[i]);
                }
            }
        } else {
            let i = choose|i: int| 0 <= i < s.len() && #[trigger] s[i].original_url == url;
        }
    }
}

/// In valid records, the record stored at index `i` is the one found by
/// its original URL and the one found by its alias.
proof fn lemma_lookup_at(s: Seq<UrlView>, i: int)
    requires
        records_valid(s),
        0 <= i < s.len(),
    ensures
        lookup_original_url(s, s[i].original_url) == Some(s[i]),
        lookup_alias(s, s[i].alias) == Some(s[i]),
{
    assert(has_original_url(s, s[i].original_url));
    assert(has_alias(s, s[i].alias));
}

/// Registering the same original URL twice gives the same record both
/// times: the second registration makes nothing, and exactly one stored
/// record holds the URL.
pub proof fn lemma_register_idempotent(s: Seq<UrlView>, url: Seq<char>)
    requires
        records_valid(s),
        registration(s, url) is Ok,
    ensures
        ({
            let r = registration(s, url)->Ok_0.0;
            let s1 = registered(s, url);
            &&& registration(s1, url) == Ok::<(UrlView, bool), StoreError>((r, false))
            &&& registered(s1, url) == s1
            &&& exists|i: int|
                0 <= i < s1.len() && s1[i] == r && #[trigger] s1[i].original_url == url && (forall|
                    j: int,
                | 0 <= j < s1.len() && #[trigger] s1[j].original_url == url ==> j == i)
        }),
{
    let (r, created) = registration(s, url)->Ok_0;
    let s1 = registered(s, url);
    lemma_registered_valid(s, url);
    let i = if created {
        s.len() as int
    } else {
        choose|i: int| 0 <= i < s.len() && #[trigger] s[i].original_url == url
    };
    assert(s1[i] == r);
    lemma_lookup_at(s1, i);
    assert forall|j: int| 0 <= j < s1.len() && #[trigger] s1[j].original_url == url implies j
        == i by {
        assert(s1[i].original_url == url);
    }
}

/// Registering two distinct new original URLs one after the other makes two
/// records with distinct aliases, the second under a larger identifier.
pub proof fn lemma_register_increasing(s: Seq<UrlView>, url1: Seq<char>, url2: Seq<char>)
    requires
        records_valid(s),
        url1 != url2,
        !has_original_url(s, url1),
        !has_original_url(s, url2),
        registration(s, url1) is Ok,
        registration(registered(s, url1), url2) is Ok,
    ensures
        ({
            let (r1, created1) = registration(s, url1)->Ok_0;
            let (r2, created2) = registration(registered(s, url1), url2)->Ok_0;
            &&& created1 && created2
            &&& r1.id < r2.id
            &&& r1.alias != r2.alias
        }),
{
    let (r1, _) = registration(s, url1)->Ok_0;
    let s1 = registered(s, url1);
    lemma_registered_valid(s, url1);
    assert(s1 == s.push(r1));
    assert(!has_original_url(s1, url2)) by {
        if has_original_url(s1, url2) {
            let k = choose|k: int| 0 <= k < s1.len() && #[trigger] s1[k].original_url == url2;
            if k < s.len() {
                assert(s1[k] == s[k]);
            }
        }
    }
    lemma_max_id_bound(s1);
    assert(s1[s.len() as int] == r1);
    let (r2, _) = registration(s1, url2)->Ok_0;
    lemma_encode_injective(r1.id, r2.id);
}

/// Resolving the alias that a registration returned gives back the original
/// URL that was registered.
pub proof fn lemma_resolve_registered(s: Seq<UrlView>, url: Seq<char>)
    requires
        records_valid(s),
        registration(s, url) is Ok,
    ensures
        resolution(registered(s, url), registration(s, url)->Ok_0.0.alias) == Some(url),
{
    lemma_register_idempotent(s, url);
    let s1 = registered(s, url);
    let r = registration(s, url)->Ok_0.0;
    lemma_registered_valid(s, url);
    let i = choose|i: int|
        0 <= i < s1.len() && s1[i] == r && #[trigger] s1[i].original_url == url && (forall|j: int|
            0 <= j < s1.len() && #[trigger] s1[j].original_url == url ==> j == i);
    lemma_lookup_at(s1, i);
}

/// Resolving an alias that no record has gives no URL.
pub proof fn lemma_resolve_unknown(s: Seq<UrlView>, alias: Seq<char>)
    requires
        !has_alias(s, alias),
    ensures
        resolution(s, alias) is None,
{
}

/// The identifier that follows `highest`, the largest one in use (`None`:
/// the store is empty): 1 for an empty store, `None` when no identifier is
/// left.
pub fn next_identifier(highest: Option<u64>) -> (r: Option<u64>)
    ensures
        r == match highest {
            None => Some(1u64),
            Some(m) => if m < u64::MAX { Some((m + 1) as u64) } else { None },
        },
{
    match highest {
        None => Some(1),
        Some(m) => m.checked_add(1),
    }
}

/// The record for identifier `id`, whose alias is the encoding of `id`.
pub fn new_record(id: u64, original_url: &str) -> (r: Url)
    ensures
        r@ == record_for(id as nat, original_url@),
{
    Url {
        short_url_integer: id,
        short_url_string: to_base62(&id),
        original_url: original_url.to_owned(),
    }
}

/// Registering an original URL: the record it stands under, and whether the
/// record was made by this registration.
#[derive(Debug)]
pub struct Registration {
    pub record: Url,
    pub created: bool,
}

impl View for Registration {
    type V = (UrlView, bool);

    open spec fn view(&self) -> (UrlView, bool) {
        (self.record@, self.created)
    }
}

/// The view of a registration result.
pub open spec fn registration_view(r: Result<Registration, StoreError>) -> Result<(UrlView, bool), StoreError> {
    match r {
        Ok(reg) => Ok(reg@),
        Err(e) => Err(e),
    }
}

/// The mapping store, kept in memory.
pub struct UrlStore {
    records: Vec<Url>,
}

impl View for UrlStore {
    type V = Seq<UrlView>;

    closed spec fn view(&self) -> Seq<UrlView> {
        self.records@.map_values(|u: Url| u@)
    }
}

impl UrlStore {
    pub open spec fn wf(&self) -> bool {
        records_valid(self@)
    }

    /// An empty store.
    pub fn new() -> (r: UrlStore)
        ensures
            r.wf(),
            r@ == Seq::<UrlView>::empty(),
    {
        let r = UrlStore { records: Vec::new() };
        assert(r@ =~= Seq::<UrlView>::empty());
        r
    }

    /// The number of records.
    pub fn len(&self) -> (r: usize)
        ensures
            r == self@.len(),
    {
        self.records.len()
    }

    /// The record whose original URL is `original_url`, if any.
    pub fn find_by_original_url(&self, original_url: &str) -> (r: Option<&Url>)
        requires
            self.wf(),
        ensures
            match r {
                Some(u) => lookup_original_url(self@, original_url@) == Some(u@),
                None => lookup_original_url(self@, original_url@) is None,
            },
    {
        let key = original_url.to_owned();
        let mut i: usize = 0;
        while i < self.records.len()
            invariant
                i <= self.records@.len(),
                key@ == original_url@,
                self.wf(),
                forall|k: int| 0 <= k < i ==> #[trigger] self@[k].original_url != key@,
            decreases self.records@.len() - i,
        {
            if self.records[i].original_url == key {
                proof {
                    assert(self@[i as int].original_url == key@);
                    let j = choose|j: int| 0 <= j < self@.len() && #[trigger] self@[j].original_url == key@;
                    assert(j == i);
                }
                return Some(&self.records[i]);
            }
            i = i + 1;
        }
        None
    }

    /// The record whose alias is `alias`, if any.
    pub fn find_by_alias(&self, alias: &str) -> (r: Option<&Url>)
        requires
            self.wf(),
        ensures
            match r {
                Some(u) => lookup_alias(self@, alias@) == Some(u@),
                None => lookup_alias(self@, alias@) is None,
            },
    {
        let key = alias.to_owned();
        let mut i: usize = 0;
        while i < self.records.len()
            invariant
                i <= self.records@.len(),
                key@ == alias@,
                self.wf(),
                forall|k: int| 0 <= k < i ==> #[trigger] self@[k].alias != key@,
            decreases self.records@.len() - i,
        {
            if self.records[i].short_url_string == key {
                proof {
                    assert(self@[i as int].alias == key@);
                    let j = choose|j: int| 0 <= j < self@.len() && #[trigger] self@[j].alias == key@;
                    assert(j == i);
                }
                return Some(&self.records[i]);
            }
            i = i + 1;
        }
        None
    }

    /// The largest identifier in use; `None` when the store is empty.
    pub fn highest_identifier(&self) -> (r: Option<u64>)
        ensures
            r == (if self@.len() == 0 { None } else { Some(max_id(self@) as u64) }),
            self@.len() > 0 ==> max_id(self@) <= u64::MAX,
    {
        let mut best: u64 = 0;
        let mut i: usize = 0;
        while i < self.records.len()
            invariant
                i <= self.records@.len(),
                best as nat == max_id(self@.subrange(0, i as int)),
            decreases self.records@.len() - i,
        {
            proof {
                assert(self@.subrange(0, i + 1).drop_last() =~= self@.subrange(0, i as int));
            }
            if self.records[i].short_url_integer > best {
                best = self.records[i].short_url_integer;
            }
            i = i + 1;
        }
        assert(self@.subrange(0, self@.len() as int) =~= self@);
        if i == 0 {
            None
        } else {
            Some(best)
        }
    }

    /// Adds `record` unless it shares an identifier, an alias or an original
    /// URL with a stored record, in which case nothing changes.
    pub fn insert(&mut self, record: Url)
        requires
            old(self).wf(),
            record@.alias == encode(record@.id),
        ensures
            final(self).wf(),
            final(self)@ == inserted(old(self)@, record@),
    {
        let mut i: usize = 0;
        while i < self.records.len()
            invariant
                i <= self.records@.len(),
                self.wf(),
                self@ == old(self)@,
                forall|k: int| 0 <= k < i ==> !(#[trigger] self@[k].id == record@.id
                    || self@[k].alias == record@.alias
                    || self@[k].original_url == record@.original_url),
            decreases self.records@.len() - i,
        {
            let u = &self.records[i];
            assert(self@[i as int] == u@);
            if u.short_url_integer == record.short_url_integer
                || u.short_url_string == record.short_url_string
                || u.original_url == record.original_url {
                return;
            }
            i = i + 1;
        }
        let ghost before = self@;
        self.records.push(record);
        assert(self@ =~= before.push(record@));
    }

    /// Registers `original_url`: returns its record if it has one; otherwise
    /// stores and returns a record under the identifier after the largest
    /// one in use.
    pub fn register(&mut self, original_url: &str) -> (r: Result<Registration, StoreError>)
        requires
            old(self).wf(),
        ensures
            final(self).wf(),
            final(self)@ == registered(old(self)@, original_url@),
            registration_view(r) == registration(old(self)@, original_url@),
    {
        match self.find_by_original_url(original_url) {
            Some(u) => {
                return Ok(Registration { record: u.duplicate(), created: false });
            },
            None => {},
        }
        let highest = self.highest_identifier();
        match next_identifier(highest) {
            None => Err(StoreError::IdentifiersExhausted),
            Some(id) => {
                let record = new_record(id, original_url);
                let copy = record.duplicate();
                proof {
                    lemma_registered_valid(self@, original_url@);
                }
                self.insert(record);
                Ok(Registration { record: copy, created: true })
            },
        }
    }

    /// The original URL stored under `alias`; `None` when no record has it.
    pub fn resolve(&self, alias: &str) -> (r: Option<String>)
        requires
            self.wf(),
        ensures
            match r {
                Some(u) => resolution(self@, alias@) == Some(u@),
                None => resolution(self@, alias@) is None,
            },
    {
        match self.find_by_alias(alias) {
            Some(u) => Some(u.original_url.clone()),
            None => None,
        }
    }
}

} // verus!
