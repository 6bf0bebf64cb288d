//! Logging in: who may, and who did.
use crate::clock;
use crate::keyed::NamedTable;
use crate::text;
use vstd::prelude::*;
use wow_srp::normalized_string::NormalizedString;
use wow_srp::server::{SrpProof, SrpServer, SrpVerifier};
use wow_srp::vanilla_header::{HeaderCrypto, ProofSeed};
use wow_srp::PublicKey;

verus! {

/// How long somebody who logged in is remembered: half an hour.
pub const IDLE_TTL: u64 = 1_800_000_000_000;

/// How often those who are not remembered any longer are looked for: every
/// minute.
pub const PRUNE_INTERVAL: u64 = 60_000_000_000;

/// What is remembered of those who logged in, by account, with the time it was
/// last asked for. What nobody asked for in a while is forgotten.
pub struct UserCacheInner<V> {
    entries: NamedTable<(u64, V)>,
    last_pruned: u64,
    idle_ttl: u64,
    prune_interval: u64,
}

/// The cache, as contracts speak of it.
#[verifier::ext_equal]
pub struct CacheView<V> {
    pub entries: Map<Seq<char>, (u64, V)>,
    pub last_pruned: u64,
    pub idle_ttl: u64,
    pub prune_interval: u64,
}

impl<V> View for UserCacheInner<V> {
    type V = CacheView<V>;

    closed spec fn view(&self) -> CacheView<V> {
        CacheView {
            entries: self.entries@,
            last_pruned: self.last_pruned,
            idle_ttl: self.idle_ttl,
            prune_interval: self.prune_interval,
        }
    }
}

impl<V> CacheView<V> {
    /// Whether the entry of `name` was asked for recently enough.
    pub open spec fn is_fresh(self, name: Seq<char>, now: u64) -> bool {
        self.entries[name].0 + self.idle_ttl > now
    }

    /// Whether it is time to look for what is to be forgotten.
    pub open spec fn prunes(self, now: u64) -> bool {
        clock::since_spec(now, self.last_pruned) >= self.prune_interval
    }

    /// After what is to be forgotten was looked for, if it was time.
    pub open spec fn pruned(self, now: u64) -> CacheView<V> {
        if self.prunes(now) {
            CacheView {
                entries: self.entries.restrict(
                    Set::new(|name: Seq<char>| self.entries.contains_key(name) && self.is_fresh(name, now)),
                ),
                last_pruned: now,
                ..self
            }
        } else {
            self
        }
    }

    /// After the entry of `name` was asked for.
    pub open spec fn touched(self, name: Seq<char>, now: u64) -> CacheView<V> {
        if self.entries.contains_key(name) {
            CacheView { entries: self.entries.insert(name, (now, self.entries[name].1)), ..self }
        } else {
            self
        }
    }

    /// After an entry was made.
    pub open spec fn inserted(self, name: Seq<char>, v: V, now: u64) -> CacheView<V> {
        let p = self.pruned(now);
        CacheView { entries: p.entries.insert(name, (now, v)), ..p }
    }
}

impl<V> UserCacheInner<V> {
    pub closed spec fn wf(&self) -> bool {
        self.entries.wf()
    }

    pub fn new(now: u64) -> (r: Self)
        ensures
            r.wf(),
            r@ == (CacheView::<V> {
                entries: Map::empty(),
                last_pruned: now,
                idle_ttl: IDLE_TTL,
                prune_interval: PRUNE_INTERVAL,
            }),
    {
        Self::with_policy(IDLE_TTL, PRUNE_INTERVAL, now)
    }

    pub fn with_policy(idle_ttl: u64, prune_interval: u64, now: u64) -> (r: Self)
        ensures
            r.wf(),
            r@ == (CacheView::<V> { entries: Map::empty(), last_pruned: now, idle_ttl, prune_interval }),
    {
        UserCacheInner { entries: NamedTable::new(), last_pruned: now, idle_ttl, prune_interval }
    }

    /// What is remembered of `name`.
    pub fn get(&mut self, name: &str, now: u64) -> (r: Option<&V>)
        requires
            old(self).wf(),
        ensures
            final(self).wf(),
            final(self)@ == old(self)@.touched(name@, now),
            r == (if old(self)@.entries.contains_key(name@) {
                Some(&old(self)@.entries[name@].1)
            } else {
                None
            }),
    {
        match self.entries.get_mut(name) {
            Some(e) => {
                e.0 = now;
            },
            None => {},
        }
        match self.entries.get(name) {
            Some(e) => Some(&e.1),
            None => None,
        }
    }

    /// What is remembered of `name`, to be changed in place.
    pub fn get_mut(&mut self, name: &str, now: u64) -> (r: Option<&mut V>)
        requires
            old(self).wf(),
        ensures
            final(self).wf(),
            match r {
                Some(v) => old(self)@.entries.contains_key(name@) && *v == old(self)@.entries[name@].1 && final(self)@
                    == (CacheView { entries: old(self)@.entries.insert(name@, (now, *final(v))), ..old(self)@ }),
                None => !old(self)@.entries.contains_key(name@) && final(self)@ == old(self)@,
            },
    {
        match self.entries.get_mut(name) {
            Some(e) => {
                e.0 = now;
                Some(&mut e.1)
            },
            None => None,
        }
    }

    /// Remember `v` of `name`.
    pub fn insert(&mut self, name: String, v: V, now: u64)
        requires
            old(self).wf(),
        ensures
            final(self).wf(),
            final(self)@ == old(self)@.inserted(name@, v, now),
    {
        self.maybe_prune(now);
        self.entries.insert(name, (now, v));
    }

    pub fn len(&self) -> (r: usize)
        requires
            self.wf(),
        ensures
            r as nat == self@.entries.dom().len(),
    {
        self.entries.len()
    }

    fn maybe_prune(&mut self, now: u64)
        requires
            old(self).wf(),
        ensures
            final(self).wf(),
            final(self)@ == old(self)@.pruned(now),
    {
        if clock::since(now, self.last_pruned) < self.prune_interval {
            return;
        }
        let ghost was = self@;
        let names = self.entries.keys();
        let ghost mut gone: Set<Seq<char>> = Set::empty();
        let mut i: usize = 0;
        assert(was.entries.remove_keys(gone) =~= was.entries);
        while i < names.len()
            invariant
                i <= names@.len(),
                self.wf(),
                self@ == (CacheView { entries: was.entries.remove_keys(gone), ..was }),
                forall|j: int| 0 <= j < names@.len() ==> was.entries.contains_key(#[trigger] names@[j]@),
                forall|j: int| 0 <= j < i ==> (gone.contains(#[trigger] names@[j]@) <==> !was.is_fresh(names@[j]@, now)),
                forall|n: Seq<char>| #[trigger]
                    gone.contains(n) ==> was.entries.contains_key(n) && !was.is_fresh(n, now),
                forall|a: int, b: int| 0 <= a < b < names@.len() ==> names@[a]@ != names@[b]@,
            decreases names.len() - i,
        {
            let ghost name = names@[i as int]@;
            let ghost before = gone;
            assert(!gone.contains(name) ==> self@.entries.contains_key(name));
            let mut stale: bool = false;
            match self.entries.get(names[i].as_str()) {
                Some(e) => {
                    stale = e.0 <= now && now - e.0 >= self.idle_ttl;
                },
                None => {},
            }
            if stale {
                self.entries.remove(names[i].as_str());
                proof {
                    gone = gone.insert(name);
                    assert(was.entries.remove_keys(before).remove(name) =~= was.entries.remove_keys(gone));
                }
            }
            i += 1;
        }
        proof {
            assert forall|n: Seq<char>| was.entries.contains_key(n) implies (gone.contains(n) <==> !was.is_fresh(
                n,
                now,
            )) by {
                let j = choose|j: int| 0 <= j < names@.len() && names@[j]@ == n;
                assert(names@[j]@ == n);
            }
            assert(was.entries.remove_keys(gone) =~= was.pruned(now).entries);
        }
        self.last_pruned = now;
    }
}

/// What was remembered is there until its time is up, whatever else is
/// remembered meanwhile.
pub proof fn the_recent_are_remembered<V>(c: CacheView<V>, name: Seq<char>, other: Seq<char>, v: V, now: u64)
    requires
        c.entries.contains_key(name),
        c.is_fresh(name, now),
        other != name,
    ensures
        c.inserted(other, v, now).entries.contains_key(name),
        c.inserted(other, v, now).entries[name] == c.entries[name],
{
}

/// What nobody asked for in time is forgotten when it is looked for.
pub proof fn the_idle_are_forgotten<V>(c: CacheView<V>, name: Seq<char>, other: Seq<char>, v: V, now: u64)
    requires
        c.entries.contains_key(name),
        !c.is_fresh(name, now),
        c.prunes(now),
        other != name,
    ensures
        !c.inserted(other, v, now).entries.contains_key(name),
{
}

/// Asking for something keeps it: it is as fresh as if it had just been made.
pub proof fn asking_keeps<V>(c: CacheView<V>, name: Seq<char>, now: u64)
    requires
        c.entries.contains_key(name),
        c.idle_ttl > 0,
    ensures
        c.touched(name, now).is_fresh(name, now),
        c.touched(name, now).entries[name].1 == c.entries[name].1,
{
}

/// `wow_srp::server::SrpProof`, a login that waits for its proof.
#[verifier::external_type_specification]
#[verifier::external_body]
pub struct ExSrpProof(SrpProof);

/// `wow_srp::server::SrpServer`, a login that succeeded.
#[verifier::external_type_specification]
#[verifier::external_body]
pub struct ExSrpServer(SrpServer);

/// `wow_srp::PublicKey`.
#[verifier::external_type_specification]
#[verifier::external_body]
pub struct ExPublicKey(PublicKey);

/// Whether a name can be logged in with: one to sixteen printable ASCII
/// characters.
pub open spec fn can_log_in(name: Seq<char>) -> bool {
    &&& 1 <= name.len() <= 16
    &&& forall|i: int| 0 <= i < name.len() ==> ' ' <= #[trigger] name[i] && name[i] <= '~'
}

/// `wow_srp::normalized_string::NormalizedString`, a name or a password as it is
/// hashed.
#[verifier::external_type_specification]
#[verifier::external_body]
pub struct ExNormalizedString(NormalizedString);

/// A name or a password as it is hashed.
pub uninterp spec fn normal_form(s: Seq<char>) -> NormalizedString;

/// `NormalizedString::new` of `wow_srp`: the text as it is hashed, if it is one to
/// sixteen characters of ASCII, none of them a control character.
#[verifier::external_body]
pub(crate) fn normalized(s: &str) -> (r: Option<NormalizedString>)
    ensures
        r is Some <==> can_log_in(s@),
        r is Some ==> r->0 == normal_form(s@),
{
    NormalizedString::new(s).ok()
}

/// The name that a login goes by: one that cannot be logged in with goes by
/// "invalid".
pub open spec fn login_as(username: Seq<char>) -> Seq<char> {
    if can_log_in(username) {
        username
    } else {
        "invalid"@
    }
}

/// The name that a login goes by, as it is hashed.
pub fn login_name(username: &str) -> (r: NormalizedString)
    ensures
        r == normal_form(login_as(username@)),
{
    match normalized(username) {
        Some(n) => n,
        None => {
            proof {
                reveal_strlit("invalid");
            }
            normalized("invalid").unwrap()
        },
    }
}

/// `wow_srp::server::SrpVerifier`, what is known of a password.
#[verifier::external_type_specification]
#[verifier::external_body]
pub struct ExSrpVerifier(SrpVerifier);

/// What is known of somebody with that name and password, with that salt.
pub uninterp spec fn salted(name: NormalizedString, password: NormalizedString, salt: Seq<u8>) -> SrpVerifier;

/// `SrpVerifier::from_username_and_password` of `wow_srp`: what is known of somebody
/// with that name and password, with a salt that is drawn at random.
#[verifier::external_body]
fn verifier_for(name: NormalizedString, password: NormalizedString) -> (r: SrpVerifier)
    ensures
        exists|salt: Seq<u8>| r == #[trigger] salted(name, password, salt),
{
    SrpVerifier::from_username_and_password(name, password)
}

/// The login of somebody of whom that is known, begun with that private key.
pub uninterp spec fn begun(v: SrpVerifier, key: Seq<u8>) -> SrpProof;

/// `SrpVerifier::into_proof` of `wow_srp`: a login is begun, with a private key that is
/// drawn at random.
#[verifier::external_body]
fn begin(v: SrpVerifier) -> (r: SrpProof)
    ensures
        exists|key: Seq<u8>| r == #[trigger] begun(v, key),
{
    v.into_proof()
}

/// Whether `p` is a login of somebody with that name and password. The salt and the
/// private key are whatever was drawn.
pub open spec fn is_begun(p: SrpProof, name: Seq<char>, password: Seq<char>) -> bool {
    exists|salt: Seq<u8>, key: Seq<u8>|
        p == #[trigger] begun(salted(normal_form(name), normal_form(password), salt), key)
}

/// Begin a login. Everybody's name is their password.
pub fn get_proof(username: &str) -> (r: SrpProof)
    ensures
        is_begun(r, login_as(username@), login_as(username@)),
{
    begin(verifier_for(login_name(username), login_name(username)))
}

/// The accounts that are known. Where `auto_create` is on, whoever is not known becomes
/// known by logging in.
pub struct Accounts {
    known: NamedTable<()>,
    auto_create: bool,
}

#[verifier::ext_equal]
pub struct AccountsView {
    pub known: Set<Seq<char>>,
    pub auto_create: bool,
}

impl View for Accounts {
    type V = AccountsView;

    closed spec fn view(&self) -> AccountsView {
        AccountsView { known: self.known@.dom(), auto_create: self.auto_create }
    }
}

impl AccountsView {
    /// Whether somebody with that name may try to log in.
    pub open spec fn admits(self, name: Seq<char>) -> bool {
        self.auto_create || self.known.contains(name)
    }

    /// After somebody with that name tried to log in.
    pub open spec fn after(self, name: Seq<char>) -> AccountsView {
        if self.admits(name) {
            AccountsView { known: self.known.insert(name), ..self }
        } else {
            self
        }
    }
}

impl Accounts {
    pub closed spec fn wf(&self) -> bool {
        self.known.wf()
    }

    /// Nobody is known.
    pub fn new(auto_create: bool) -> (r: Self)
        ensures
            r.wf(),
            r@ == (AccountsView { known: Set::empty(), auto_create }),
    {
        let r = Accounts { known: NamedTable::new(), auto_create };
        assert(r@.known =~= Set::empty());
        r
    }

    /// Make an account known.
    pub fn add_account(&mut self, name: String)
        requires
            old(self).wf(),
        ensures
            final(self).wf(),
            final(self)@ == (AccountsView { known: old(self)@.known.insert(name@), ..old(self)@ }),
    {
        let ghost was = self@;
        let ghost who = name@;
        self.known.insert(name, ());
        assert(self@.known =~= was.known.insert(who));
    }

    /// Begin a login of somebody who may try. Others are refused.
    pub fn begin_login(&mut self, username: &str) -> (r: Option<SrpProof>)
        requires
            old(self).wf(),
        ensures
            final(self).wf(),
            final(self)@ == old(self)@.after(username@),
            r is Some <==> old(self)@.admits(username@),
            r is Some ==> is_begun(r->0, login_as(username@), login_as(username@)),
    {
        if !self.known.contains_key(username) {
            if !self.auto_create {
                return None;
            }
            self.add_account(username.to_string());
        } else {
            assert(self@.known =~= self@.known.insert(username@));
        }
        Some(get_proof(username))
    }
}

/// Who was let in once is known from then on, whether or not others are.
pub proof fn who_was_admitted_is_known(a: AccountsView, name: Seq<char>)
    requires
        a.admits(name),
    ensures
        a.after(name).known.contains(name),
        (AccountsView { auto_create: false, ..a.after(name) }).admits(name),
{
}

/// The public key that bytes are, if they are one.
pub uninterp spec fn key_from(key: Seq<u8>) -> Option<PublicKey>;

/// `PublicKey::from_le_bytes` of `wow_srp`: the key, if the bytes are one.
#[verifier::external_body]
pub(crate) fn public_key(key: [u8; 32]) -> (r: Option<PublicKey>)
    ensures
        r == key_from(key@),
{
    PublicKey::from_le_bytes(key).ok()
}

/// The proof that answers a client, if its own proof is right.
pub uninterp spec fn answer(p: SrpProof, key: PublicKey, client_proof: Seq<u8>) -> Option<Seq<u8>>;

/// The key that a login and the public key of a client agree upon.
pub uninterp spec fn login_key(p: SrpProof, key: PublicKey) -> Seq<u8>;

/// `SrpProof::into_server` of `wow_srp`: the login and the proof to answer with,
/// if the proof of the client is right. The key that was agreed upon and the answer
/// follow from the keys that were drawn for the login; the challenge for coming back is
/// drawn at random, and nothing is said of it. The login has to be that of somebody
/// with a name and a password.
#[verifier::external_body]
fn into_server(p: SrpProof, key: PublicKey, client_proof: [u8; 20]) -> (r: Option<(SrpServer, [u8; 20])>)
    requires
        exists|name: Seq<char>, password: Seq<char>| #[trigger] is_begun(p, name, password),
    ensures
        r is Some <==> answer(p, key, client_proof@) is Some,
        r is Some ==> (r->0).1@ == answer(p, key, client_proof@)->0,
        r is Some ==> agreed_key((r->0).0) == login_key(p, key),
{
    p.into_server(key, client_proof).ok()
}

/// Check what a client answered. Without a public key there is no login.
pub fn check_proof(p: SrpProof, key: [u8; 32], client_proof: [u8; 20]) -> (r: Option<(SrpServer, [u8; 20])>)
    requires
        exists|name: Seq<char>, password: Seq<char>| #[trigger] is_begun(p, name, password),
    ensures
        r is Some <==> key_from(key@) is Some && answer(p, key_from(key@)->0, client_proof@) is Some,
        r is Some ==> (r->0).1@ == answer(p, key_from(key@)->0, client_proof@)->0,
        r is Some ==> agreed_key((r->0).0) == login_key(p, key_from(key@)->0),
{
    match public_key(key) {
        Some(k) => into_server(p, k, client_proof),
        None => None,
    }
}

/// What somebody who logged in is challenged with when they come back.
pub uninterp spec fn challenge(s: SrpServer) -> Seq<u8>;

/// `SrpServer::reconnect_challenge_data` of `wow_srp`: the bytes that were drawn
/// for this.
#[verifier::external_body]
fn challenge_of(s: &SrpServer) -> (r: [u8; 16])
    ensures
        r@ == challenge(*s),
{
    *s.reconnect_challenge_data()
}

/// The key that was agreed upon in a login.
pub uninterp spec fn agreed_key(s: SrpServer) -> Seq<u8>;

/// `SrpServer::session_key` of `wow_srp`: the key that was agreed upon.
#[verifier::external_body]
fn session_key(s: &SrpServer) -> (r: [u8; 40])
    ensures
        r@ == agreed_key(*s),
{
    *s.session_key()
}

/// Whether a proof is right of somebody who comes back.
pub uninterp spec fn proves_return(s: SrpServer, data: Seq<u8>, client_proof: Seq<u8>) -> bool;

/// `SrpServer::verify_reconnection_attempt` of `wow_srp`: whether the proof is
/// right. The key stays; the next challenge is drawn anew, and nothing is said of
/// it.
#[verifier::external_body]
fn verify_reconnection(s: &mut SrpServer, data: [u8; 16], client_proof: [u8; 20]) -> (r: bool)
    ensures
        r == proves_return(*old(s), data@, client_proof@),
        agreed_key(*final(s)) == agreed_key(*old(s)),
{
    s.verify_reconnection_attempt(data, client_proof)
}

/// What somebody who wants to come back is challenged with; nobody does who is
/// not remembered.
pub fn reconnect_challenge(users: &mut UserCacheInner<SrpServer>, name: &str, now: u64) -> (r: Option<[u8; 16]>)
    requires
        old(users).wf(),
    ensures
        final(users).wf(),
        final(users)@ == old(users)@.touched(name@, now),
        r is Some <==> old(users)@.entries.contains_key(name@),
        r is Some ==> r->0@ == challenge(old(users)@.entries[name@].1),
{
    match users.get(name, now) {
        Some(s) => Some(challenge_of(s)),
        None => None,
    }
}

/// Whether somebody who wants to come back may: nobody may who is not
/// remembered.
pub fn reconnect_verify(
    users: &mut UserCacheInner<SrpServer>,
    name: &str,
    data: [u8; 16],
    client_proof: [u8; 20],
    now: u64,
) -> (r: bool)
    requires
        old(users).wf(),
    ensures
        final(users).wf(),
        r == (old(users)@.entries.contains_key(name@) && proves_return(
            old(users)@.entries[name@].1,
            data@,
            client_proof@,
        )),
        final(users)@ == (CacheView { entries: final(users)@.entries, ..old(users)@ }),
        final(users)@.entries.dom() == old(users)@.entries.dom(),
        forall|n: Seq<char>|
            n != name@ && old(users)@.entries.contains_key(n) ==> #[trigger] final(users)@.entries[n] == old(
                users,
            )@.entries[n],
        old(users)@.entries.contains_key(name@) ==> final(users)@.entries[name@].0 == now && agreed_key(
            final(users)@.entries[name@].1,
        ) == agreed_key(old(users)@.entries[name@].1),
{
    match users.get_mut(name, now) {
        Some(s) => {
            let ok: bool = verify_reconnection(s, data, client_proof);
            assert(old(users)@.entries.insert(name@, (now, *s)).dom() =~= old(users)@.entries.dom());
            ok
        },
        None => false,
    }
}

/// `wow_srp::vanilla_header::ProofSeed`, a random number that a session is opened
/// with.
#[verifier::external_type_specification]
#[verifier::external_body]
pub struct ExProofSeed(ProofSeed);

/// `wow_srp::vanilla_header::HeaderCrypto`, the ciphers of a session.
#[verifier::external_type_specification]
#[verifier::external_body]
pub struct ExHeaderCrypto(HeaderCrypto);

/// The number that a session is opened with.
pub uninterp spec fn seed_of(s: ProofSeed) -> u32;

/// `ProofSeed::seed` of `wow_srp`: the number.
#[verifier::external_body]
fn seed_number(s: &ProofSeed) -> (r: u32)
    ensures
        r == seed_of(*s),
{
    s.seed()
}

/// `ProofSeed::new` of `wow_srp`: a random number, of which nothing is said.
#[verifier::external_body]
fn new_seed() -> (r: ProofSeed) {
    ProofSeed::new()
}

/// What proves that a client knows the key of a session.
pub uninterp spec fn session_proof(
    name: NormalizedString,
    key: Seq<u8>,
    server_seed: u32,
    client_seed: u32,
) -> Seq<u8>;

/// The ciphers of the session with a key.
pub uninterp spec fn ciphers(key: Seq<u8>) -> HeaderCrypto;

/// `ProofSeed::into_server_header_crypto` of `wow_srp`: the ciphers, if the proof
/// of the client is that of the session.
#[verifier::external_body]
fn header_crypto(
    seed: ProofSeed,
    name: &NormalizedString,
    key: [u8; 40],
    client_proof: [u8; 20],
    client_seed: u32,
) -> (r: Option<HeaderCrypto>)
    ensures
        r == (if client_proof@ == session_proof(*name, key@, seed_of(seed), client_seed) {
            Some(ciphers(key@))
        } else {
            None
        }),
{
    seed.into_server_header_crypto(name, key, client_proof, client_seed).ok()
}

/// `ProofSeed::into_client_header_crypto` of `wow_srp`: the proof of the session and
/// its ciphers.
#[verifier::external_body]
pub(crate) fn client_crypto(seed: ProofSeed, name: &NormalizedString, key: [u8; 40], server_seed: u32) -> (r: (
    [u8; 20],
    HeaderCrypto,
))
    ensures
        r.0@ == session_proof(*name, key@, server_seed, seed_of(seed)),
        r.1 == ciphers(key@),
{
    seed.into_client_header_crypto(name, key, server_seed)
}

/// Why nobody enters the world.
#[derive(Debug, Clone, Copy, PartialEq, Eq, Structural)]
pub enum EntryError {
    UnknownAccount,
    BadName,
    BadProof,
}

/// Who enters: nobody who is not remembered, or under a name that cannot be logged
/// in with, or without the proof of the session.
pub open spec fn entry(
    users: CacheView<SrpServer>,
    name: Seq<char>,
    server_seed: u32,
    client_proof: Seq<u8>,
    client_seed: u32,
) -> Result<HeaderCrypto, EntryError> {
    if !users.entries.contains_key(name) {
        Err(EntryError::UnknownAccount)
    } else if !can_log_in(name) {
        Err(EntryError::BadName)
    } else {
        let key = agreed_key(users.entries[name].1);
        if client_proof == session_proof(normal_form(name), key, server_seed, client_seed) {
            Ok(ciphers(key))
        } else {
            Err(EntryError::BadProof)
        }
    }
}

/// Open a session for somebody who logged in.
pub fn enter_world(
    users: &mut UserCacheInner<SrpServer>,
    name: &str,
    seed: ProofSeed,
    client_proof: [u8; 20],
    client_seed: u32,
    now: u64,
) -> (r: Result<HeaderCrypto, EntryError>)
    requires
        old(users).wf(),
    ensures
        final(users).wf(),
        final(users)@ == old(users)@.touched(name@, now),
        r == entry(old(users)@, name@, seed_of(seed), client_proof@, client_seed),
{
    let key: [u8; 40] = match users.get(name, now) {
        Some(s) => session_key(s),
        None => {
            return Err(EntryError::UnknownAccount);
        },
    };
    let hashed = match normalized(name) {
        Some(n) => n,
        None => {
            return Err(EntryError::BadName);
        },
    };
    match header_crypto(seed, &hashed, key, client_proof, client_seed) {
        Some(c) => Ok(c),
        None => Err(EntryError::BadProof),
    }
}

/// Open a session with a seed that is drawn for it. Beside the number of the seed,
/// which the client is challenged with, that is the seed to enter with.
pub fn challenge_client() -> (r: (ProofSeed, u32))
    ensures
        r.1 == seed_of(r.0),
{
    let s = new_seed();
    let n: u32 = seed_number(&s);
    (s, n)
}

/// Whoever logged in and answers the challenge with the key that was agreed upon
/// enters, and both ends have the same ciphers.
pub proof fn who_answers_enters(
    users: CacheView<SrpServer>,
    name: Seq<char>,
    key: Seq<u8>,
    server_seed: u32,
    client_seed: u32,
)
    requires
        users.entries.contains_key(name),
        can_log_in(name),
        key == agreed_key(users.entries[name].1),
    ensures
        entry(users, name, server_seed, session_proof(normal_form(name), key, server_seed, client_seed), client_seed) == Ok::<
            HeaderCrypto,
            EntryError,
        >(ciphers(key)),
{
}

/// The versions of the login protocol that are spoken.
#[derive(Debug, Clone, Copy, PartialEq, Eq, Structural)]
pub enum Dialect {
    Two,
    Three,
    Eight,
}

/// What somebody who connects wants.
#[derive(Debug, Clone, Copy, PartialEq, Eq, Structural)]
pub enum AuthRoute {
    Login(Dialect),
    Reconnect(Dialect),
    Ignore,
}

pub open spec fn routed(reconnect: bool, version: u8) -> AuthRoute {
    if version == 2 {
        if reconnect {
            AuthRoute::Reconnect(Dialect::Two)
        } else {
            AuthRoute::Login(Dialect::Two)
        }
    } else if version == 3 && !reconnect {
        AuthRoute::Login(Dialect::Three)
    } else if version == 8 {
        if reconnect {
            AuthRoute::Reconnect(Dialect::Eight)
        } else {
            AuthRoute::Login(Dialect::Eight)
        }
    } else {
        AuthRoute::Ignore
    }
}

/// What to do with somebody who connects and speaks that version. There is no
/// coming back with the third.
pub fn route(reconnect: bool, version: u8) -> (r: AuthRoute)
    ensures
        r == routed(reconnect, version),
{
    match (reconnect, version) {
        (false, 2) => AuthRoute::Login(Dialect::Two),
        (false, 3) => AuthRoute::Login(Dialect::Three),
        (false, 8) => AuthRoute::Login(Dialect::Eight),
        (true, 2) => AuthRoute::Reconnect(Dialect::Two),
        (true, 8) => AuthRoute::Reconnect(Dialect::Eight),
        _ => AuthRoute::Ignore,
    }
}

/// A realm that a player can choose.
#[derive(Debug)]
pub struct RealmEntry {
    pub name: String,
    pub address: String,
    pub characters: u8,
    pub realm_id: u8,
}

/// Whether `r` is the list of realms of that version: one realm, or nine of them
/// that are numbered.
pub open spec fn is_realm_list(r: Seq<RealmEntry>, d: Dialect, address: Seq<char>) -> bool {
    &&& r.len() == (if d == Dialect::Eight {
        9nat
    } else {
        1nat
    })
    &&& forall|i: int|
        0 <= i < r.len() ==> (#[trigger] r[i]).address@ == address && r[i].characters == i && r[i].realm_id == i
            && r[i].name@ == (if d == Dialect::Eight {
            text::decimal(i as nat)
        } else {
            "Location Realm"@
        })
}

/// The realms that there are, all of them at `address`.
pub fn realm_list(d: Dialect, address: &str) -> (r: Vec<RealmEntry>)
    ensures
        is_realm_list(r@, d, address@),
{
    let mut r: Vec<RealmEntry> = Vec::new();
    if d == Dialect::Eight {
        let mut i: u8 = 0;
        while i < 9
            invariant
                i <= 9,
                r@.len() == i,
                forall|j: int|
                    0 <= j < i ==> (#[trigger] r@[j]).address@ == address@ && r@[j].characters == j && r@[j].realm_id
                        == j && r@[j].name@ == text::decimal(j as nat),
            decreases 9 - i,
        {
            r.push(
                RealmEntry {
                    name: text::to_decimal(i as u64),
                    address: address.to_string(),
                    characters: i,
                    realm_id: i,
                },
            );
            i += 1;
        }
    } else {
        r.push(
            RealmEntry {
                name: "Location Realm".to_string(),
                address: address.to_string(),
                characters: 0,
                realm_id: 0,
            },
        );
    }
    r
}

/// The address of the world where none is configured.
pub const DEFAULT_WORLD_ADDRESS: &'static str = "localhost:8085";

/// The address of the world that players are told.
pub fn world_server_address(configured: Option<String>) -> (r: String)
    ensures
        r@ == (match configured {
            Some(a) => a@,
            None => DEFAULT_WORLD_ADDRESS@,
        }),
{
    match configured {
        Some(a) => a,
        None => DEFAULT_WORLD_ADDRESS.to_string(),
    }
}

/// Somebody is remembered for half an hour, and once a minute those are looked for who are
/// not remembered any longer.
pub proof fn people_are_remembered_for_half_an_hour<V>(now: u64, r: UserCacheInner<V>)
    requires
        call_ensures(UserCacheInner::<V>::new, (now,), r),
    ensures
        r@.idle_ttl == 30 * 60 * 1_000_000_000,
        r@.prune_interval == 60 * 1_000_000_000,
        r@.entries.dom() =~= Set::<Seq<char>>::empty(),
        r@.last_pruned == now,
{
}

/// What was put in is there under its name, with the time; whatever was there under other
/// names stays, unless it is time to look for what is idle and it has been idle for the
/// whole time that is set.
pub proof fn only_the_idle_are_forgotten<V>(
    c: &mut UserCacheInner<V>,
    name: String,
    v: V,
    now: u64,
    u: (),
    other: Seq<char>,
)
    requires
        old(c).wf(),
        call_ensures(UserCacheInner::<V>::insert, (c, name, v, now), u),
    ensures
        final(c)@.entries.contains_key(name@) && final(c)@.entries[name@] == (now, v),
        other != name@ && old(c)@.entries.contains_key(other) && old(c)@.entries[other].0 + old(c)@.idle_ttl > now
            ==> final(c)@.entries.contains_key(other) && final(c)@.entries[other] == old(c)@.entries[other],
        other != name@ && old(c)@.entries.contains_key(other) && now < old(c)@.last_pruned + old(c)@.prune_interval
            && now >= old(c)@.last_pruned ==> final(c)@.entries.contains_key(other) && final(c)@.entries[other] == old(c)@.entries[other],
        other != name@ && old(c)@.entries[other].0 + old(c)@.idle_ttl <= now && old(c)@.last_pruned + old(c)@.prune_interval <= now ==> !final(c)@.entries.contains_key(other),
        !old(c)@.entries.contains_key(other) && other != name@ ==> !final(c)@.entries.contains_key(other),
        final(c)@.idle_ttl == old(c)@.idle_ttl && final(c)@.prune_interval == old(c)@.prune_interval,
        old(c)@.last_pruned + old(c)@.prune_interval <= now ==> final(c)@.last_pruned == now,
{
}

/// Somebody who comes back is challenged only if they are remembered, and asking counts as
/// being seen: it keeps them, and changes nobody else.
pub proof fn only_the_remembered_are_challenged(
    users: &mut UserCacheInner<SrpServer>,
    name: &str,
    now: u64,
    r: Option<[u8; 16]>,
    other: Seq<char>,
)
    requires
        old(users).wf(),
        call_ensures(reconnect_challenge, (users, name, now), r),
    ensures
        old(users)@.entries.contains_key(name@) ==> r is Some && r->0@ == challenge(old(users)@.entries[name@].1)
            && final(users)@.entries.contains_key(name@) && final(users)@.entries[name@] == (
            now,
            old(users)@.entries[name@].1,
        ),
        !old(users)@.entries.contains_key(name@) ==> r is None && !final(users)@.entries.contains_key(name@),
        other != name@ ==> (final(users)@.entries.contains_key(other) <==> old(users)@.entries.contains_key(other)) && (
        old(users)@.entries.contains_key(other) ==> final(users)@.entries[other] == old(users)@.entries[other]),
{
}

/// Nobody comes back without being remembered and giving the right proof, and whoever does
/// both comes back.
pub proof fn only_the_proved_come_back(
    users: &mut UserCacheInner<SrpServer>,
    name: &str,
    data: [u8; 16],
    client_proof: [u8; 20],
    now: u64,
    r: bool,
)
    requires
        old(users).wf(),
        call_ensures(reconnect_verify, (users, name, data, client_proof, now), r),
    ensures
        !old(users)@.entries.contains_key(name@) ==> !r,
        old(users)@.entries.contains_key(name@) ==> (r <==> proves_return(
            old(users)@.entries[name@].1,
            data@,
            client_proof@,
        )),
        old(users)@.entries.contains_key(name@) ==> final(users)@.entries[name@].0 == now,
{
}

/// A login succeeds if and only if the bytes are a public key and the proof is right.
pub proof fn only_right_proofs_log_in(
    p: SrpProof,
    key: [u8; 32],
    client_proof: [u8; 20],
    r: Option<(SrpServer, [u8; 20])>,
    k: PublicKey,
)
    requires
        call_ensures(check_proof, (p, key, client_proof), r),
    ensures
        key_from(key@) is None ==> r is None,
        key_from(key@) == Some(k) ==> (r is Some <==> answer(p, k, client_proof@) is Some),
        key_from(key@) == Some(k) && r is Some ==> (r->0).1@ == answer(p, k, client_proof@)->0 && agreed_key((r->0).0)
            == login_key(p, k),
{
}

/// Nobody enters the world who did not log in, or under a name of no or more than sixteen
/// characters, or without the proof of the session; everybody else does, with the ciphers of
/// the key that was agreed upon.
pub proof fn who_logged_in_enters(
    users: &mut UserCacheInner<SrpServer>,
    name: &str,
    seed: ProofSeed,
    client_proof: [u8; 20],
    client_seed: u32,
    now: u64,
    r: Result<HeaderCrypto, EntryError>,
)
    requires
        old(users).wf(),
        call_ensures(enter_world, (users, name, seed, client_proof, client_seed, now), r),
    ensures
        !old(users)@.entries.contains_key(name@) ==> r == Err::<HeaderCrypto, EntryError>(EntryError::UnknownAccount),
        old(users)@.entries.contains_key(name@) && (name@.len() == 0 || name@.len() > 16) ==> r == Err::<
            HeaderCrypto,
            EntryError,
        >(EntryError::BadName),
        old(users)@.entries.contains_key(name@) && can_log_in(name@) ==> {
            let key = agreed_key(old(users)@.entries[name@].1);
            let right = client_proof@ == session_proof(normal_form(name@), key, seed_of(seed), client_seed);
            &&& right ==> r == Ok::<HeaderCrypto, EntryError>(ciphers(key))
            &&& !right ==> r == Err::<HeaderCrypto, EntryError>(EntryError::BadProof)
        },
        old(users)@.entries.contains_key(name@) ==> final(users)@.entries[name@] == (now, old(users)@.entries[name@].1),
{
}

/// Names of one to sixteen printable characters can be logged in with, and others cannot.
pub proof fn names_are_short_and_printable(name: Seq<char>, i: int)
    ensures
        can_log_in(name) ==> 1 <= name.len() <= 16,
        0 <= i < name.len() && !(' ' <= name[i] && name[i] <= '~') ==> !can_log_in(name),
        1 <= name.len() <= 16 && (forall|j: int| 0 <= j < name.len() ==> ' ' <= #[trigger] name[j] && name[j] <= '~')
            ==> can_log_in(name),
{
}

/// Where accounts are made as they come, everybody may try to log in and is known
/// afterwards; elsewhere only the known may. The name is the password.
pub proof fn who_may_log_in(a: &mut Accounts, username: &str, r: Option<SrpProof>, other: Seq<char>)
    requires
        old(a).wf(),
        call_ensures(Accounts::begin_login, (a, username), r),
    ensures
        old(a)@.auto_create ==> r is Some,
        !old(a)@.auto_create ==> (r is Some <==> old(a)@.known.contains(username@)),
        r is Some ==> final(a)@.known.contains(username@),
        r is None ==> final(a)@ == old(a)@,
        other != username@ ==> (final(a)@.known.contains(other) <==> old(a)@.known.contains(other)),
        final(a)@.auto_create == old(a)@.auto_create,
        r is Some && can_log_in(username@) ==> is_begun(r->0, username@, username@),
{
}

/// The dialects two and eight can log in and come back; the third can only log in; whatever
/// else speaks is ignored.
pub proof fn dialects_are_routed(reconnect: bool, version: u8, r: AuthRoute)
    requires
        call_ensures(route, (reconnect, version), r),
    ensures
        version == 2 && !reconnect ==> r == AuthRoute::Login(Dialect::Two),
        version == 2 && reconnect ==> r == AuthRoute::Reconnect(Dialect::Two),
        version == 3 && !reconnect ==> r == AuthRoute::Login(Dialect::Three),
        version == 3 && reconnect ==> r is Ignore,
        version == 8 && !reconnect ==> r == AuthRoute::Login(Dialect::Eight),
        version == 8 && reconnect ==> r == AuthRoute::Reconnect(Dialect::Eight),
        version != 2 && version != 3 && version != 8 ==> r is Ignore,
{
}

/// The eighth dialect is told of nine realms, numbered from zero, and the others of one; all
/// of them are at the same address.
pub proof fn realms_are_listed(d: Dialect, address: &str, r: Vec<RealmEntry>, i: int)
    requires
        call_ensures(realm_list, (d, address), r),
    ensures
        d is Eight ==> r@.len() == 9,
        !(d is Eight) ==> r@.len() == 1 && r@[0].name@ == "Location Realm"@,
        0 <= i < r@.len() ==> r@[i].address@ == address@ && r@[i].realm_id == i && r@[i].characters == i,
        d is Eight && 0 <= i < 9 ==> r@[i].name@.len() == 1 && r@[i].name@[0] as int == '0' as int + i,
{
    if 0 <= i < r@.len() {
        let e = r@[i];
        assert(e.address@ == address@);
    }
}

} // verus!
