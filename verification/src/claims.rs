//! Who owns which subdomain: one machine per name, one name per machine.
use vstd::prelude::*;

use crate::text::{same_str, str_is_empty};

verus! {

#[verifier::external_type_specification]
#[verifier::external_body]
#[verifier::reject_recursive_types(K)]
#[verifier::reject_recursive_types(V)]
#[verifier::reject_recursive_types(S)]
pub struct ExDashMap<K, V, S>(dashmap::DashMap<K, V, S>);

/// The texts that a `dashmap::DashMap` holds under texts.
pub uninterp spec fn names_held(map: dashmap::DashMap<String, String>) -> Map<
    Seq<char>,
    Seq<char>,
>;

/// `DashMap::new` holds nothing.
#[verifier::external_body]
fn no_names() -> (map: dashmap::DashMap<String, String>)
    ensures
        names_held(map) == (Map::<Seq<char>, Seq<char>>::empty()),
{
    dashmap::DashMap::new()
}

/// `DashMap::get` finds the value held under a key, if there is one.
#[verifier::external_body]
fn get_name(map: &dashmap::DashMap<String, String>, key: &str) -> (res: Option<String>)
    ensures
        match res {
            Some(value) => names_held(*map).contains_key(key@) && value@ == names_held(*map)[key@],
            None => !names_held(*map).contains_key(key@),
        },
{
    map.get(key).map(|entry| entry.value().clone())
}

/// `DashMap::contains_key` says whether a value is held under a key.
#[verifier::external_body]
fn has_name(map: &dashmap::DashMap<String, String>, key: &str) -> (res: bool)
    ensures
        res == names_held(*map).contains_key(key@),
{
    map.contains_key(key)
}

/// `DashMap::insert` puts a value under a key, in place of any other.
#[verifier::external_body]
fn put_name(map: &mut dashmap::DashMap<String, String>, key: String, value: String)
    ensures
        names_held(*final(map)) == names_held(*old(map)).insert(key@, value@),
{
    map.insert(key, value);
}

/// The claims as a value.
#[verifier::ext_equal]
pub ghost struct ClaimsView {
    /// The machine that owns a subdomain.
    pub owners: Map<Seq<char>, Seq<char>>,
    /// The subdomain that a machine has reserved.
    pub reserved: Map<Seq<char>, Seq<char>>,
    /// Claims are kept on disk, and every CLI must say which machine it is.
    pub persistent: bool,
}

/// Whether a claim is new, and is to be kept on disk where claims are.
#[derive(Clone, Copy, Debug, PartialEq, Eq, Structural)]
pub enum Claimed {
    New,
    Already,
}

impl ClaimsView {
    /// No claims.
    pub open spec fn none(persistent: bool) -> ClaimsView {
        ClaimsView { owners: Map::empty(), reserved: Map::empty(), persistent }
    }

    /// The claims with one more.
    pub open spec fn with(self, subdomain: Seq<char>, machine_id: Seq<char>) -> ClaimsView {
        ClaimsView {
            owners: self.owners.insert(subdomain, machine_id),
            reserved: self.reserved.insert(machine_id, subdomain),
            persistent: self.persistent,
        }
    }

    /// Every name has one machine and every machine one name: the two tables
    /// say the same.
    pub open spec fn wf(self) -> bool {
        &&& forall|s: Seq<char>| #[trigger]
            self.owners.contains_key(s) ==> self.reserved.contains_key(self.owners[s])
                && self.reserved[self.owners[s]] == s
        &&& forall|m: Seq<char>| #[trigger]
            self.reserved.contains_key(m) ==> self.owners.contains_key(self.reserved[m])
                && self.owners[self.reserved[m]] == m
    }

    /// What claiming `subdomain` for a machine leads to: a new claim, one that
    /// stood before, or why it is refused.
    pub open spec fn claim(self, subdomain: Seq<char>, machine_id: Seq<char>) -> Result<
        Claimed,
        Seq<char>,
    > {
        if machine_id.len() == 0 {
            Err("this Vyse edge requires a machine id"@)
        } else if self.owners.contains_key(subdomain) {
            if self.owners[subdomain] == machine_id {
                Ok(Claimed::Already)
            } else {
                Err("subdomain `"@ + subdomain + "` is bound to another machine"@)
            }
        } else if self.reserved.contains_key(machine_id) && self.reserved[machine_id]
            != subdomain {
            Err("machine already reserved `"@ + self.reserved[machine_id] + "`"@)
        } else {
            Ok(Claimed::New)
        }
    }

    /// The claims after that.
    pub open spec fn after_claim(self, subdomain: Seq<char>, machine_id: Seq<char>) -> ClaimsView {
        if self.claim(subdomain, machine_id) == Ok::<Claimed, Seq<char>>(Claimed::New) {
            self.with(subdomain, machine_id)
        } else {
            self
        }
    }

    /// Nobody else owns the name.
    pub open spec fn available(self, subdomain: Seq<char>, machine_id: Seq<char>) -> bool {
        self.owners.contains_key(subdomain) ==> self.owners[subdomain] == machine_id
    }
}

/// Names and machines as text.
pub open spec fn row_views(rows: Seq<(String, String)>) -> Seq<(Seq<char>, Seq<char>)> {
    rows.map_values(|r: (String, String)| (r.0@, r.1@))
}

/// The claims that rows of names and machines amount to; later rows win.
pub open spec fn loaded(rows: Seq<(Seq<char>, Seq<char>)>) -> ClaimsView
    decreases rows.len(),
{
    if rows.len() == 0 {
        ClaimsView::none(true)
    } else {
        loaded(rows.drop_last()).with(rows.last().0, rows.last().1)
    }
}

/// Subdomain claims. `persistent` ones come from disk and go there.
pub struct ClaimStore {
    inner: dashmap::DashMap<String, String>,
    by_machine: dashmap::DashMap<String, String>,
    persistent: bool,
}

impl View for ClaimStore {
    type V = ClaimsView;

    closed spec fn view(&self) -> ClaimsView {
        ClaimsView {
            owners: names_held(self.inner),
            reserved: names_held(self.by_machine),
            persistent: self.persistent,
        }
    }
}

impl ClaimStore {
    /// The claims in rows of names and machines that were kept on disk; `None`
    /// where claims are not kept.
    pub fn open(rows: Option<Vec<(String, String)>>) -> (store: ClaimStore)
        ensures
            store@ == (match rows {
                Some(rows) => loaded(row_views(rows@)),
                None => ClaimsView::none(false),
            }),
            rows is None ==> store@.wf(),
    {
        match rows {
            None => ClaimStore::in_memory(),
            Some(rows) => {
                let ghost views = row_views(rows@);
                let mut store = ClaimStore {
                    inner: no_names(),
                    by_machine: no_names(),
                    persistent: true,
                };
                let mut i: usize = 0;
                assert(store@ =~= loaded(views.take(0)));
                while i < rows.len()
                    invariant
                        i <= rows@.len(),
                        views == row_views(rows@),
                        store@ == loaded(views.take(i as int)),
                    decreases rows@.len() - i,
                {
                    let subdomain: String = rows[i].0.clone();
                    let machine_id: String = rows[i].1.clone();
                    assert(views.take(i + 1).drop_last() =~= views.take(i as int));
                    assert(views.take(i + 1).last() == (subdomain@, machine_id@));
                    put_name(&mut store.inner, subdomain.clone(), machine_id.clone());
                    put_name(&mut store.by_machine, machine_id, subdomain);
                    assert(store@ =~= loaded(views.take(i + 1)));
                    i = i + 1;
                }
                assert(views.take(i as int) =~= views);
                store
            },
        }
    }

    /// No claims, and none that are kept.
    pub fn in_memory() -> (store: ClaimStore)
        ensures
            store@ == ClaimsView::none(false),
            store@.wf(),
    {
        let store = ClaimStore { inner: no_names(), by_machine: no_names(), persistent: false };
        assert(store@ =~= ClaimsView::none(false));
        store
    }

    pub fn requires_machine_id(&self) -> (res: bool)
        ensures
            res == self@.persistent,
    {
        self.persistent
    }

    /// The subdomain that a machine has reserved.
    pub fn reserved_of(&self, machine_id: &str) -> (res: Option<String>)
        ensures
            match res {
                Some(name) => self@.reserved.contains_key(machine_id@) && name@
                    == self@.reserved[machine_id@],
                None => !self@.reserved.contains_key(machine_id@),
            },
    {
        get_name(&self.by_machine, machine_id)
    }

    /// Claim a subdomain for a machine. The first claim wins; the same machine
    /// may claim again what it has.
    pub fn claim_reserved(&mut self, subdomain: &str, machine_id: &str) -> (res: Result<
        Claimed,
        String,
    >)
        ensures
            final(self)@ == old(self)@.after_claim(subdomain@, machine_id@),
            old(self)@.wf() ==> final(self)@.wf(),
            match res {
                Ok(claimed) => old(self)@.claim(subdomain@, machine_id@) == Ok::<
                    Claimed,
                    Seq<char>,
                >(claimed),
                Err(message) => old(self)@.claim(subdomain@, machine_id@) == Err::<
                    Claimed,
                    Seq<char>,
                >(message@),
            },
    {
        if str_is_empty(machine_id) {
            return Err("this Vyse edge requires a machine id".to_owned());
        }
        if let Some(existing) = get_name(&self.inner, subdomain) {
            if same_str(existing.as_str(), machine_id) {
                return Ok(Claimed::Already);
            }
            let mut message: String = String::new();
            message.append("subdomain `");
            message.append(subdomain);
            message.append("` is bound to another machine");
            assert(message@ =~= "subdomain `"@ + subdomain@ + "` is bound to another machine"@);
            return Err(message);
        }
        if let Some(reserved) = get_name(&self.by_machine, machine_id) {
            if !same_str(reserved.as_str(), subdomain) {
                let mut message: String = String::new();
                message.append("machine already reserved `");
                message.append(reserved.as_str());
                message.append("`");
                assert(message@ =~= "machine already reserved `"@ + reserved@ + "`"@);
                return Err(message);
            }
        }
        put_name(&mut self.inner, subdomain.to_owned(), machine_id.to_owned());
        put_name(&mut self.by_machine, machine_id.to_owned(), subdomain.to_owned());
        assert(self@ =~= old(self)@.with(subdomain@, machine_id@));
        Ok(Claimed::New)
    }

    /// The machine that owns a subdomain.
    pub fn owner(&self, subdomain: &str) -> (res: Option<String>)
        ensures
            match res {
                Some(machine) => self@.owners.contains_key(subdomain@) && machine@
                    == self@.owners[subdomain@],
                None => !self@.owners.contains_key(subdomain@),
            },
    {
        get_name(&self.inner, subdomain)
    }

    pub fn is_claimed(&self, subdomain: &str) -> (res: bool)
        ensures
            res == self@.owners.contains_key(subdomain@),
    {
        has_name(&self.inner, subdomain)
    }

    /// Nobody else owns the name.
    pub fn is_available_for(&self, subdomain: &str, machine_id: &str) -> (res: bool)
        ensures
            res == self@.available(subdomain@, machine_id@),
    {
        match get_name(&self.inner, subdomain) {
            Some(machine) => same_str(machine.as_str(), machine_id),
            None => true,
        }
    }
}

/// Claiming keeps names and machines one to one.
pub proof fn law_claims_stay_one_to_one(
    claims: ClaimsView,
    subdomain: Seq<char>,
    machine_id: Seq<char>,
)
    requires
        claims.wf(),
    ensures
        claims.after_claim(subdomain, machine_id).wf(),
{
}

/// Rows in which no name and no machine comes twice load one to one.
pub proof fn law_distinct_rows_load_one_to_one(rows: Seq<(Seq<char>, Seq<char>)>)
    requires
        forall|i: int, j: int|
            0 <= i < j < rows.len() ==> (#[trigger] rows[i]).0 != (#[trigger] rows[j]).0
                && rows[i].1 != rows[j].1,
    ensures
        loaded(rows).wf(),
        forall|i: int|
            0 <= i < rows.len() ==> loaded(rows).owners.contains_key((#[trigger] rows[i]).0)
                && loaded(rows).owners[rows[i].0] == rows[i].1,
        forall|s: Seq<char>| #[trigger]
            loaded(rows).owners.contains_key(s) ==> exists|i: int|
                0 <= i < rows.len() && (#[trigger] rows[i]).0 == s,
        forall|m: Seq<char>| #[trigger]
            loaded(rows).reserved.contains_key(m) ==> exists|i: int|
                0 <= i < rows.len() && (#[trigger] rows[i]).1 == m,
    decreases rows.len(),
{
    if rows.len() > 0 {
        let rest = rows.drop_last();
        assert forall|i: int, j: int| 0 <= i < j < rest.len() implies (#[trigger] rest[i]).0 != (
        #[trigger] rest[j]).0 && rest[i].1 != rest[j].1 by {
            assert(rest[i] == rows[i] && rest[j] == rows[j]);
        }
        law_distinct_rows_load_one_to_one(rest);
        let last = rows.last();
        assert(!loaded(rest).owners.contains_key(last.0)) by {
            if loaded(rest).owners.contains_key(last.0) {
                let i = choose|i: int| 0 <= i < rest.len() && (#[trigger] rest[i]).0 == last.0;
                assert(rows[i] == rest[i]);
            }
        }
        assert(!loaded(rest).reserved.contains_key(last.1)) by {
            if loaded(rest).reserved.contains_key(last.1) {
                let i = choose|i: int| 0 <= i < rest.len() && (#[trigger] rest[i]).1 == last.1;
                assert(rows[i] == rest[i]);
            }
        }
        assert forall|i: int| 0 <= i < rows.len() implies loaded(rows).owners.contains_key(
            (#[trigger] rows[i]).0,
        ) && loaded(rows).owners[rows[i].0] == rows[i].1 by {
            if i < rest.len() {
                assert(rest[i] == rows[i]);
            }
        }
        assert forall|s: Seq<char>| #[trigger]
            loaded(rows).owners.contains_key(s) implies exists|i: int|
            0 <= i < rows.len() && (#[trigger] rows[i]).0 == s by {
            if s == last.0 {
                assert(rows[rows.len() - 1].0 == s);
            } else {
                let i = choose|i: int| 0 <= i < rest.len() && (#[trigger] rest[i]).0 == s;
                assert(rows[i].0 == s);
            }
        }
        assert forall|m: Seq<char>| #[trigger]
            loaded(rows).reserved.contains_key(m) implies exists|i: int|
            0 <= i < rows.len() && (#[trigger] rows[i]).1 == m by {
            if m == last.1 {
                assert(rows[rows.len() - 1].1 == m);
            } else {
                let i = choose|i: int| 0 <= i < rest.len() && (#[trigger] rest[i]).1 == m;
                assert(rows[i].1 == m);
            }
        }
    }
}

/// The first claim wins: once a machine owns a name it may claim it again,
/// any other machine is refused and the claims stay as they are.
pub proof fn law_first_claim_wins(
    claims: ClaimsView,
    subdomain: Seq<char>,
    first: Seq<char>,
    other: Seq<char>,
)
    requires
        claims.claim(subdomain, first) is Ok,
        other.len() > 0,
        other != first,
    ensures
        claims.after_claim(subdomain, first).owners[subdomain] == first,
        claims.after_claim(subdomain, first).claim(subdomain, first) == Ok::<Claimed, Seq<char>>(
            Claimed::Already,
        ),
        claims.after_claim(subdomain, first).claim(subdomain, other) == Err::<Claimed, Seq<char>>(
            "subdomain `"@ + subdomain + "` is bound to another machine"@,
        ),
        claims.after_claim(subdomain, first).after_claim(subdomain, other)
            == claims.after_claim(subdomain, first),
{
}

/// A machine reserves one name: a second, unclaimed one is refused with the
/// name that it has.
pub proof fn law_one_name_per_machine(
    claims: ClaimsView,
    first: Seq<char>,
    second: Seq<char>,
    machine_id: Seq<char>,
)
    requires
        claims.wf(),
        claims.claim(first, machine_id) is Ok,
        second != first,
        !claims.owners.contains_key(second),
    ensures
        claims.after_claim(first, machine_id).claim(second, machine_id) == Err::<
            Claimed,
            Seq<char>,
        >("machine already reserved `"@ + first + "`"@),
        claims.after_claim(first, machine_id).reserved[machine_id] == first,
{
}

/// A machine with an id may claim a name that nobody owns, unless it has reserved
/// another; it then owns that name, and no other claim changes.
pub proof fn law_free_names_can_be_claimed(
    claims: ClaimsView,
    subdomain: Seq<char>,
    machine_id: Seq<char>,
)
    requires
        machine_id.len() > 0,
        !claims.owners.contains_key(subdomain),
        claims.reserved.contains_key(machine_id) ==> claims.reserved[machine_id] == subdomain,
    ensures
        claims.claim(subdomain, machine_id) == Ok::<Claimed, Seq<char>>(Claimed::New),
        claims.after_claim(subdomain, machine_id) == (ClaimsView {
            owners: claims.owners.insert(subdomain, machine_id),
            reserved: claims.reserved.insert(machine_id, subdomain),
            persistent: claims.persistent,
        }),
{
}

/// A claim that stands, or is refused, changes nothing; what is refused and why.
pub proof fn law_refused_claims(
    claims: ClaimsView,
    subdomain: Seq<char>,
    machine_id: Seq<char>,
)
    ensures
        machine_id.len() == 0 ==> claims.claim(subdomain, machine_id) == Err::<Claimed, Seq<char>>(
            "this Vyse edge requires a machine id"@,
        ),
        machine_id.len() > 0 && claims.owners.contains_key(subdomain) && claims.owners[subdomain]
            == machine_id ==> claims.claim(subdomain, machine_id) == Ok::<Claimed, Seq<char>>(
            Claimed::Already,
        ),
        machine_id.len() > 0 && claims.owners.contains_key(subdomain) && claims.owners[subdomain]
            != machine_id ==> claims.claim(subdomain, machine_id) == Err::<Claimed, Seq<char>>(
            "subdomain `"@ + subdomain + "` is bound to another machine"@,
        ),
        machine_id.len() > 0 && !claims.owners.contains_key(subdomain)
            && claims.reserved.contains_key(machine_id) && claims.reserved[machine_id] != subdomain
            ==> claims.claim(subdomain, machine_id) == Err::<Claimed, Seq<char>>(
            "machine already reserved `"@ + claims.reserved[machine_id] + "`"@,
        ),
        claims.claim(subdomain, machine_id) != Ok::<Claimed, Seq<char>>(Claimed::New)
            ==> claims.after_claim(subdomain, machine_id) == claims,
{
}

/// A name is available to the machine that owns it, and to any where nobody does.
pub proof fn law_who_may_have_a_name(
    claims: ClaimsView,
    subdomain: Seq<char>,
    machine_id: Seq<char>,
)
    ensures
        !claims.owners.contains_key(subdomain) ==> claims.available(subdomain, machine_id),
        claims.owners.contains_key(subdomain) ==> (claims.available(subdomain, machine_id)
            <==> claims.owners[subdomain] == machine_id),
{
}

/// Kept claims are loaded one by one; the last row of a name or a machine counts.
pub proof fn law_kept_claims_are_loaded(
    rows: Seq<(Seq<char>, Seq<char>)>,
    subdomain: Seq<char>,
    machine_id: Seq<char>,
)
    ensures
        loaded(Seq::empty()) == (ClaimsView {
            owners: Map::empty(),
            reserved: Map::empty(),
            persistent: true,
        }),
        loaded(rows.push((subdomain, machine_id))) == (ClaimsView {
            owners: loaded(rows).owners.insert(subdomain, machine_id),
            reserved: loaded(rows).reserved.insert(machine_id, subdomain),
            persistent: true,
        }),
    decreases rows.len(),
{
    assert(rows.push((subdomain, machine_id)).drop_last() =~= rows);
    if rows.len() > 0 {
        law_kept_claims_are_loaded(rows.drop_last(), rows.last().0, rows.last().1);
        assert(rows.drop_last().push((rows.last().0, rows.last().1)) =~= rows);
    }
}

/// What a store says of its claims.
pub proof fn law_claims_are_told(
    store: &ClaimStore,
    name: &str,
    machine: &str,
    owner: Option<String>,
    reserved: Option<String>,
    claimed: bool,
    available: bool,
    counts: bool,
)
    requires
        call_ensures(ClaimStore::owner, (store, name), owner),
        call_ensures(ClaimStore::reserved_of, (store, machine), reserved),
        call_ensures(ClaimStore::is_claimed, (store, name), claimed),
        call_ensures(ClaimStore::is_available_for, (store, name, machine), available),
        call_ensures(ClaimStore::requires_machine_id, (store,), counts),
    ensures
        owner is Some <==> store@.owners.contains_key(name@),
        owner matches Some(m) ==> store@.owners[name@] == m@,
        reserved is Some <==> store@.reserved.contains_key(machine@),
        reserved matches Some(s) ==> store@.reserved[machine@] == s@,
        claimed <==> store@.owners.contains_key(name@),
        available <==> !claimed || store@.owners[name@] == machine@,
        counts <==> store@.persistent,
{
}

/// Claims count where they are kept, and there are none at first where they are not.
pub proof fn law_opened_stores(rows: Option<Vec<(String, String)>>, store: ClaimStore, k: int)
    requires
        call_ensures(ClaimStore::open, (rows,), store),
    ensures
        store@.persistent <==> rows is Some,
        rows is None ==> store@.owners == Map::<Seq<char>, Seq<char>>::empty() && store@.reserved
            == Map::<Seq<char>, Seq<char>>::empty(),
        rows matches Some(rows) ==> 0 <= k < rows@.len() && (forall|j: int|
            k < j < rows@.len() ==> (#[trigger] rows@[j]).0@ != rows@[k].0@)
            ==> store@.owners.contains_key(rows@[k].0@) && store@.owners[rows@[k].0@]
            == rows@[k].1@,
        rows matches Some(rows) ==> 0 <= k < rows@.len() && (forall|j: int|
            k < j < rows@.len() ==> (#[trigger] rows@[j]).1@ != rows@[k].1@)
            ==> store@.reserved.contains_key(rows@[k].1@) && store@.reserved[rows@[k].1@]
            == rows@[k].0@,
{
    if let Some(rows) = rows {
        let views = row_views(rows@);
        lemma_loaded(views);
        assert forall|j: int| 0 <= j < rows@.len() implies #[trigger] views[j] == (
            rows@[j].0@,
            rows@[j].1@,
        ) by {}
        if 0 <= k < rows@.len() {
            assert(views[k] == (rows@[k].0@, rows@[k].1@));
            if forall|j: int| k < j < rows@.len() ==> (#[trigger] rows@[j]).0@ != rows@[k].0@ {
                lemma_last_owner(views, k);
            }
            if forall|j: int| k < j < rows@.len() ==> (#[trigger] rows@[j]).1@ != rows@[k].1@ {
                lemma_last_reserved(views, k);
            }
        }
    }
}

proof fn lemma_loaded(rows: Seq<(Seq<char>, Seq<char>)>)
    ensures
        loaded(rows).persistent,
    decreases rows.len(),
{
    if rows.len() > 0 {
        lemma_loaded(rows.drop_last());
    }
}

proof fn lemma_last_owner(rows: Seq<(Seq<char>, Seq<char>)>, k: int)
    requires
        0 <= k < rows.len(),
        forall|j: int| k < j < rows.len() ==> (#[trigger] rows[j]).0 != rows[k].0,
    ensures
        loaded(rows).owners.contains_key(rows[k].0),
        loaded(rows).owners[rows[k].0] == rows[k].1,
    decreases rows.len(),
{
    if k < rows.len() - 1 {
        assert(rows[rows.len() - 1].0 != rows[k].0);
        lemma_last_owner(rows.drop_last(), k);
    }
}

proof fn lemma_last_reserved(rows: Seq<(Seq<char>, Seq<char>)>, k: int)
    requires
        0 <= k < rows.len(),
        forall|j: int| k < j < rows.len() ==> (#[trigger] rows[j]).1 != rows[k].1,
    ensures
        loaded(rows).reserved.contains_key(rows[k].1),
        loaded(rows).reserved[rows[k].1] == rows[k].0,
    decreases rows.len(),
{
    if k < rows.len() - 1 {
        assert(rows[rows.len() - 1].1 != rows[k].1);
        lemma_last_reserved(rows.drop_last(), k);
    }
}

} // verus!
