//! The registry of blocked addresses: the one authoritative list, changed
//! only by blocking and unblocking.
//!
//! A registry is changed through `&mut`, so each request is carried out
//! whole. Sessions that share one registry hold it behind a lock and take the
//! lock for one request at a time.

use vstd::prelude::*;
use vstd::string::*;
use crate::address::{
    is_canonical, is_mac_format, is_valid_address, lemma_normalized_is_canonical, normalize,
    normalized,
};

verus! {

/// Why a registry operation did nothing.
#[derive(Clone, Copy, Debug, PartialEq, Eq, Structural)]
pub enum RegistryError {
    /// The text given is not a well-formed address.
    InvalidFormat,
    /// The address to unblock is not in the registry.
    NotBlocked,
}

/// What blocking a well-formed address did.
#[derive(Clone, Copy, Debug, PartialEq, Eq, Structural)]
pub enum BlockOutcome {
    /// The address was added; `total` counts the addresses blocked after it.
    Added { total: usize },
    /// The address was there already and nothing changed; `total` counts the
    /// addresses blocked.
    AlreadyBlocked { total: usize },
}

/// `list` can be the content of a registry: every entry is a well-formed
/// address in stored form, and none occurs twice.
pub open spec fn is_blocklist(list: Seq<Seq<char>>) -> bool {
    &&& list.no_duplicates()
    &&& forall|i: int| 0 <= i < list.len() ==> is_canonical(#[trigger] list[i])
}

/// The list after a request to block `mac`: a well-formed address that is not
/// there yet is added at the end, in stored form; anything else changes
/// nothing.
pub open spec fn blocked_after(list: Seq<Seq<char>>, mac: Seq<char>) -> Seq<Seq<char>> {
    if is_mac_format(mac) && !list.contains(normalized(mac)) {
        list.push(normalized(mac))
    } else {
        list
    }
}

/// What a request to block `mac` answers.
pub open spec fn block_result(list: Seq<Seq<char>>, mac: Seq<char>) -> Result<
    BlockOutcome,
    RegistryError,
> {
    if !is_mac_format(mac) {
        Err(RegistryError::InvalidFormat)
    } else if list.contains(normalized(mac)) {
        Ok(BlockOutcome::AlreadyBlocked { total: list.len() as usize })
    } else {
        Ok(BlockOutcome::Added { total: (list.len() + 1) as usize })
    }
}

/// The list after a request to unblock `mac`: a well-formed address that is
/// there is taken out and the others keep their order; anything else changes
/// nothing.
pub open spec fn unblocked_after(list: Seq<Seq<char>>, mac: Seq<char>) -> Seq<Seq<char>> {
    if is_mac_format(mac) && list.contains(normalized(mac)) {
        list.remove(list.index_of(normalized(mac)))
    } else {
        list
    }
}

/// What a request to unblock `mac` answers.
pub open spec fn unblock_result(list: Seq<Seq<char>>, mac: Seq<char>) -> Result<(), RegistryError> {
    if !is_mac_format(mac) {
        Err(RegistryError::InvalidFormat)
    } else if !list.contains(normalized(mac)) {
        Err(RegistryError::NotBlocked)
    } else {
        Ok(())
    }
}

/// What a query for `mac` answers.
pub open spec fn blocked_status(list: Seq<Seq<char>>, mac: Seq<char>) -> Result<
    bool,
    RegistryError,
> {
    if !is_mac_format(mac) {
        Err(RegistryError::InvalidFormat)
    } else {
        Ok(list.contains(normalized(mac)))
    }
}

/// The texts that the strings of `v` hold, in order.
pub open spec fn texts(v: Seq<String>) -> Seq<Seq<char>> {
    Seq::new(v.len(), |i: int| v[i]@)
}

/// The set of blocked addresses. Every address in it is well formed and in
/// stored form, and none is held twice.
pub struct FirewallServer {
    blocked_macs: Vec<String>,
}

impl View for FirewallServer {
    type V = Set<Seq<char>>;

    /// The blocked addresses as a set.
    open spec fn view(&self) -> Set<Seq<char>> {
        self.addresses().to_set()
    }
}

impl FirewallServer {
    /// The blocked addresses in the order in which they are listed: the order
    /// in which they were blocked.
    pub closed spec fn addresses(&self) -> Seq<Seq<char>> {
        texts(self.blocked_macs@)
    }

    /// What holds of every registry at all times: its content is a
    /// blocklist.
    #[verifier::type_invariant]
    pub open spec fn well_formed(&self) -> bool {
        is_blocklist(self.addresses())
    }

    /// An empty registry.
    pub fn new() -> (r: Self)
        ensures
            r.addresses() == Seq::<Seq<char>>::empty(),
            r@ == Set::<Seq<char>>::empty(),
    {
        let r = FirewallServer { blocked_macs: Vec::new() };
        assert(r.addresses() =~= Seq::<Seq<char>>::empty());
        assert(r@ =~= Set::<Seq<char>>::empty());
        r
    }

    /// Decides whether `mac` is a well-formed address: six groups of two
    /// hexadecimal digits of either case, joined by colons.
    pub fn is_valid_mac(&self, mac: &str) -> (r: bool)
        ensures
            r == is_mac_format(mac@),
    {
        is_valid_address(mac)
    }

    /// The number of blocked addresses.
    pub fn len(&self) -> (r: usize)
        ensures
            r == self.addresses().len(),
            r == self@.len(),
            is_blocklist(self.addresses()),
    {
        proof {
            use_type_invariant(self);
            lemma_blocklist_is_counted(self.addresses());
        }
        self.blocked_macs.len()
    }

    /// Moves the list out and leaves an empty one, so that it can be changed
    /// and put back whole.
    fn take_list(&mut self) -> (list: Vec<String>)
        ensures
            texts(list@) == old(self).addresses(),
            final(self).addresses() == Seq::<Seq<char>>::empty(),
    {
        let mut list: Vec<String> = Vec::new();
        core::mem::swap(&mut self.blocked_macs, &mut list);
        assert(self.addresses() =~= Seq::<Seq<char>>::empty());
        list
    }

    /// Where the stored form `n` stands in the list, if it does.
    fn position(&self, n: &String) -> (r: Option<usize>)
        ensures
            match r {
                Some(i) => i < self.addresses().len() && self.addresses()[i as int] == n@,
                None => !self.addresses().contains(n@),
            },
    {
        let mut i: usize = 0;
        while i < self.blocked_macs.len()
            invariant
                i <= self.blocked_macs.len(),
                forall|j: int| 0 <= j < i ==> self.addresses()[j] != n@,
            decreases self.blocked_macs.len() - i,
        {
            if self.blocked_macs[i] == *n {
                return Some(i);
            }
            i += 1;
        }
        None
    }

    /// Blocks `mac`. A text that is no well-formed address is refused with
    /// `InvalidFormat` and nothing changes. An address that is blocked already
    /// is reported as such and nothing changes. Any other address is added in
    /// its stored form.
    pub fn block_mac(&mut self, mac: &str) -> (r: Result<BlockOutcome, RegistryError>)
        ensures
            r == block_result(old(self).addresses(), mac@),
            final(self).addresses() == blocked_after(old(self).addresses(), mac@),
            is_blocklist(final(self).addresses()),
    {
        proof {
            use_type_invariant(&*self);
        }
        let n = match normalize(mac) {
            Some(n) => n,
            None => {
                return Err(RegistryError::InvalidFormat);
            },
        };
        if self.position(&n).is_some() {
            return Ok(BlockOutcome::AlreadyBlocked { total: self.blocked_macs.len() });
        }
        let ghost before = self.addresses();
        let mut list = self.take_list();
        list.push(n);
        proof {
            assert(texts(list@) =~= before.push(n@));
            lemma_requests_keep_blocklist(before, mac@);
        }
        self.blocked_macs = list;
        Ok(BlockOutcome::Added { total: self.blocked_macs.len() })
    }

    /// Unblocks `mac`. A text that is no well-formed address is refused with
    /// `InvalidFormat`, an address that is not blocked with `NotBlocked`; in
    /// both cases nothing changes. Any other address is taken out.
    pub fn unblock_mac(&mut self, mac: &str) -> (r: Result<(), RegistryError>)
        ensures
            r == unblock_result(old(self).addresses(), mac@),
            final(self).addresses() == unblocked_after(old(self).addresses(), mac@),
            is_blocklist(final(self).addresses()),
    {
        proof {
            use_type_invariant(&*self);
        }
        let n = match normalize(mac) {
            Some(n) => n,
            None => {
                return Err(RegistryError::InvalidFormat);
            },
        };
        let i = match self.position(&n) {
            Some(i) => i,
            None => {
                return Err(RegistryError::NotBlocked);
            },
        };
        let ghost before = self.addresses();
        let mut list = self.take_list();
        list.remove(i);
        proof {
            assert(before.index_of(n@) == i);
            assert(texts(list@) =~= before.remove(i as int));
            lemma_requests_keep_blocklist(before, mac@);
        }
        self.blocked_macs = list;
        Ok(())
    }

    /// Tells whether `mac` is blocked. A text that is no well-formed address
    /// is refused with `InvalidFormat`. Nothing changes.
    pub fn is_blocked(&self, mac: &str) -> (r: Result<bool, RegistryError>)
        ensures
            r == blocked_status(self.addresses(), mac@),
    {
        match normalize(mac) {
            Some(n) => Ok(self.position(&n).is_some()),
            None => Err(RegistryError::InvalidFormat),
        }
    }

    /// A copy of the blocked addresses, in the order in which they were
    /// blocked.
    pub fn get_blocklist(&self) -> (r: Vec<String>)
        ensures
            texts(r@) == self.addresses(),
            is_blocklist(self.addresses()),
    {
        proof {
            use_type_invariant(self);
        }
        let mut r: Vec<String> = Vec::new();
        let mut i: usize = 0;
        while i < self.blocked_macs.len()
            invariant
                i <= self.blocked_macs.len(),
                texts(r@) == self.addresses().subrange(0, i as int),
            decreases self.blocked_macs.len() - i,
        {
            let item = self.blocked_macs[i].clone();
            let ghost copied = texts(r@);
            r.push(item);
            i += 1;
            assert(texts(r@) =~= copied.push(item@));
        }
        assert(self.addresses().subrange(0, i as int) =~= self.addresses());
        r
    }
}

/// A blocklist holds as many addresses as it lists: as a set it is finite, of
/// the size of the list, and holds what the list holds.
pub proof fn lemma_blocklist_is_counted(list: Seq<Seq<char>>)
    requires
        is_blocklist(list),
    ensures
        list.to_set().finite(),
        list.to_set().len() == list.len(),
        forall|a: Seq<char>| list.to_set().contains(a) <==> list.contains(a),
{
    list.unique_seq_to_set();
}

/// Blocking and unblocking keep the content a blocklist: whatever is asked,
/// every address held stays well formed and in stored form, and none is held
/// twice.
pub proof fn lemma_requests_keep_blocklist(list: Seq<Seq<char>>, mac: Seq<char>)
    requires
        is_blocklist(list),
    ensures
        is_blocklist(blocked_after(list, mac)),
        is_blocklist(unblocked_after(list, mac)),
{
    if is_mac_format(mac) {
        let n = normalized(mac);
        lemma_normalized_is_canonical(mac);
        if list.contains(n) {
            let i = list.index_of(n);
            let after = list.remove(i);
            assert forall|a: int, b: int|
                0 <= a < after.len() && 0 <= b < after.len() && a != b implies after[a]
                != after[b] by {
                let a0 = if a < i { a } else { a + 1 };
                let b0 = if b < i { b } else { b + 1 };
                assert(after[a] == list[a0] && after[b] == list[b0]);
            }
            assert forall|a: int| 0 <= a < after.len() implies is_canonical(
                #[trigger] after[a],
            ) by {
                let a0 = if a < i { a } else { a + 1 };
                assert(after[a] == list[a0]);
            }
        } else {
            let after = list.push(n);
            assert forall|a: int, b: int|
                0 <= a < after.len() && 0 <= b < after.len() && a != b implies after[a]
                != after[b] by {
                if a < list.len() {
                    assert(list.contains(list[a]));
                }
                if b < list.len() {
                    assert(list.contains(list[b]));
                }
            }
        }
    }
}

/// After a well-formed address is blocked, a query for it says that it is
/// blocked; after it is unblocked, a query for it says that it is not.
pub proof fn lemma_query_follows_request(list: Seq<Seq<char>>, mac: Seq<char>)
    requires
        is_blocklist(list),
        is_mac_format(mac),
    ensures
        blocked_status(blocked_after(list, mac), mac) == Ok::<bool, RegistryError>(true),
        blocked_status(unblocked_after(list, mac), mac) == Ok::<bool, RegistryError>(false),
{
    let n = normalized(mac);
    if list.contains(n) {
        let i = list.index_of(n);
        let after = list.remove(i);
        if after.contains(n) {
            let k = after.index_of(n);
            let k0 = if k < i { k } else { k + 1 };
            assert(after[k] == list[k0]);
            assert(list[k0] == list[i] && k0 != i);
        }
    } else {
        let after = list.push(n);
        assert(after[list.len() as int] == n);
    }
}

/// Blocking is idempotent: a second request to block the same address, in
/// whatever case its digits are written, is answered with `AlreadyBlocked`
/// and leaves the list, and so the number of blocked addresses, as it is.
pub proof fn lemma_block_is_idempotent(list: Seq<Seq<char>>, mac: Seq<char>)
    requires
        is_blocklist(list),
        is_mac_format(mac),
    ensures
        ({
            let once = blocked_after(list, mac);
            &&& blocked_after(once, mac) == once
            &&& block_result(once, mac) == Ok::<BlockOutcome, RegistryError>(
                BlockOutcome::AlreadyBlocked { total: once.len() as usize },
            )
            &&& blocked_after(once, mac).to_set().len() == once.to_set().len()
        }),
{
    lemma_query_follows_request(list, mac);
}

/// Unblocking an address that is not blocked fails with `NotBlocked` and
/// leaves the list as it is.
pub proof fn lemma_unblock_of_absent(list: Seq<Seq<char>>, mac: Seq<char>)
    requires
        is_mac_format(mac),
        !list.contains(normalized(mac)),
    ensures
        unblock_result(list, mac) == Err::<(), RegistryError>(RegistryError::NotBlocked),
        unblocked_after(list, mac) == list,
{
}

/// A request for a text that is no well-formed address is refused with
/// `InvalidFormat`, whichever request it is, and leaves the list as it is.
pub proof fn lemma_malformed_is_refused(list: Seq<Seq<char>>, mac: Seq<char>)
    requires
        !is_mac_format(mac),
    ensures
        block_result(list, mac) == Err::<BlockOutcome, RegistryError>(RegistryError::InvalidFormat),
        unblock_result(list, mac) == Err::<(), RegistryError>(RegistryError::InvalidFormat),
        blocked_status(list, mac) == Err::<bool, RegistryError>(RegistryError::InvalidFormat),
        blocked_after(list, mac) == list,
        unblocked_after(list, mac) == list,
{
}

/// In terms of the set of blocked addresses: blocking a well-formed address
/// puts its stored form into the set, unblocking takes it out, and a query
/// tells whether it is in the set.
pub proof fn lemma_requests_act_on_the_set(list: Seq<Seq<char>>, mac: Seq<char>)
    requires
        is_blocklist(list),
        is_mac_format(mac),
    ensures
        blocked_after(list, mac).to_set() == list.to_set().insert(normalized(mac)),
        unblocked_after(list, mac).to_set() == list.to_set().remove(normalized(mac)),
        blocked_status(list, mac) == Ok::<bool, RegistryError>(
            list.to_set().contains(normalized(mac)),
        ),
{
    let n = normalized(mac);
    let blocked = blocked_after(list, mac);
    let unblocked = unblocked_after(list, mac);
    assert forall|a: Seq<char>| blocked.contains(a) <==> (a == n || list.contains(a)) by {
        if !list.contains(n) {
            if blocked.contains(a) {
                let k = blocked.index_of(a);
                if k < list.len() {
                    assert(list[k] == a);
                }
            }
            if list.contains(a) {
                let k = list.index_of(a);
                assert(blocked[k] == a);
            }
            assert(blocked[list.len() as int] == n);
        }
    }
    assert forall|a: Seq<char>| unblocked.contains(a) <==> (a != n && list.contains(a)) by {
        if list.contains(n) {
            let i = list.index_of(n);
            if unblocked.contains(a) {
                let k = unblocked.index_of(a);
                let k0 = if k < i { k } else { k + 1 };
                assert(unblocked[k] == list[k0]);
                assert(k0 != i);
            }
            if a != n && list.contains(a) {
                let k0 = list.index_of(a);
                let k = if k0 < i { k0 } else { k0 - 1 };
                assert(unblocked[k] == a);
            }
        }
    }
    assert(blocked.to_set() =~= list.to_set().insert(n));
    assert(unblocked.to_set() =~= list.to_set().remove(n));
}

} // verus!
