//! Users: who is registered, under which identity, and how far their
//! verification has come.
//!
//! A user is stored under an enrolment number, issued in the order of
//! registration, and found by identity. No identity is registered twice.
use crate::ids::issue;
use crate::ids::level;
use crate::ids::IdAllocator;
use crate::ordered::is_first;
use crate::ordered::lemma_first_selected;
use crate::ordered::lemma_selection_empty;
use crate::ordered::listing;
use crate::records::can_store;
use crate::records::find_first;
use crate::records::fits;
use crate::records::lemma_fits_by_shape;
use crate::records::records;
use crate::records::scan;
use crate::records::scan_where;
use crate::records::store;
use crate::records::views;
use crate::records::Record;
use crate::row::Row;
use crate::row::RowView;
use crate::stable::table_new;
use crate::stable::table_open;
use crate::stable::table_rows;
use crate::stable::MemoryPool;
use crate::stable::Table;
use crate::text::bytes_text;
use crate::text::copy_bytes;
use crate::text::same_bytes;
use crate::text::text_bytes;
use crate::text::text_is;
use vstd::prelude::*;
use vstd::utf8::decode_utf8;
use vstd::utf8::decode_utf8_encode_utf8;
use vstd::utf8::encode_utf8;
use vstd::utf8::encode_utf8_decode_utf8;
use vstd::utf8::encode_utf8_valid_utf8;
use vstd::utf8::valid_utf8;

verus! {

/// The sequence of enrolment numbers.
pub const ENROLMENT_SEQUENCE: u8 = 0;

/// A registered user. Amounts are in cents.
#[derive(Clone, Debug, PartialEq, Eq)]
pub struct User {
    /// The identity of the user, as raw bytes.
    pub principal: Vec<u8>,
    pub email: String,
    pub name: String,
    /// "pending", "verified" or "rejected".
    pub kyc_status: String,
    pub wallet_address: String,
    pub registration_date: u64,
    pub is_active: bool,
    pub total_investments: u64,
    pub portfolio_value: u64,
}

/// The mathematical value of a [`User`].
pub struct UserView {
    pub principal: Seq<u8>,
    pub email: Seq<char>,
    pub name: Seq<char>,
    pub kyc_status: Seq<char>,
    pub wallet_address: Seq<char>,
    pub registration_date: u64,
    pub is_active: bool,
    pub total_investments: u64,
    pub portfolio_value: u64,
}

impl View for User {
    type V = UserView;

    open spec fn view(&self) -> UserView {
        UserView {
            principal: self.principal@,
            email: self.email@,
            name: self.name@,
            kyc_status: self.kyc_status@,
            wallet_address: self.wallet_address@,
            registration_date: self.registration_date,
            is_active: self.is_active,
            total_investments: self.total_investments,
            portfolio_value: self.portfolio_value,
        }
    }
}

impl Record for User {
    open spec fn row_of(v: UserView) -> RowView {
        RowView {
            nums: seq![
                v.registration_date,
                if v.is_active { 1u64 } else { 0u64 },
                v.total_investments,
                v.portfolio_value,
            ],
            blobs: seq![
                v.principal,
                encode_utf8(v.email),
                encode_utf8(v.name),
                encode_utf8(v.kyc_status),
                encode_utf8(v.wallet_address),
            ],
        }
    }

    open spec fn of_row(row: RowView) -> Option<UserView> {
        if row.nums.len() == 4 && row.blobs.len() == 5 && row.nums[1] <= 1 && valid_utf8(
            row.blobs[1],
        ) && valid_utf8(row.blobs[2]) && valid_utf8(row.blobs[3]) && valid_utf8(row.blobs[4]) {
            Some(
                UserView {
                    principal: row.blobs[0],
                    email: decode_utf8(row.blobs[1]),
                    name: decode_utf8(row.blobs[2]),
                    kyc_status: decode_utf8(row.blobs[3]),
                    wallet_address: decode_utf8(row.blobs[4]),
                    registration_date: row.nums[0],
                    is_active: row.nums[1] == 1,
                    total_investments: row.nums[2],
                    portfolio_value: row.nums[3],
                },
            )
        } else {
            None
        }
    }

    fn to_row(&self) -> (row: Row) {
        let mut nums: Vec<u64> = Vec::new();
        nums.push(self.registration_date);
        nums.push(if self.is_active { 1 } else { 0 });
        nums.push(self.total_investments);
        nums.push(self.portfolio_value);
        let mut blobs: Vec<Vec<u8>> = Vec::new();
        blobs.push(copy_bytes(&self.principal));
        blobs.push(text_bytes(&self.email));
        blobs.push(text_bytes(&self.name));
        blobs.push(text_bytes(&self.kyc_status));
        blobs.push(text_bytes(&self.wallet_address));
        let row = Row { nums, blobs };
        proof {
            assert(row@.nums =~= Self::row_of(self@).nums);
            assert(row@.blobs =~= Self::row_of(self@).blobs);
            encode_utf8_valid_utf8(self.email@);
            encode_utf8_decode_utf8(self.email@);
            encode_utf8_valid_utf8(self.name@);
            encode_utf8_decode_utf8(self.name@);
            encode_utf8_valid_utf8(self.kyc_status@);
            encode_utf8_decode_utf8(self.kyc_status@);
            encode_utf8_valid_utf8(self.wallet_address@);
            encode_utf8_decode_utf8(self.wallet_address@);
        }
        row
    }

    fn from_row(row: &Row) -> (r: Option<User>) {
        if row.nums.len() != 4 || row.blobs.len() != 5 || row.nums[1] > 1 {
            return None;
        }
        assert(forall|i: int| 0 <= i < 5 ==> row@.blobs[i] == #[trigger] row.blobs@[i]@);
        let email = match bytes_text(&row.blobs[1]) {
            Some(t) => t,
            None => { return None; },
        };
        let name = match bytes_text(&row.blobs[2]) {
            Some(t) => t,
            None => { return None; },
        };
        let kyc_status = match bytes_text(&row.blobs[3]) {
            Some(t) => t,
            None => { return None; },
        };
        let wallet_address = match bytes_text(&row.blobs[4]) {
            Some(t) => t,
            None => { return None; },
        };
        Some(
            User {
                principal: copy_bytes(&row.blobs[0]),
                email,
                name,
                kyc_status,
                wallet_address,
                registration_date: row.nums[0],
                is_active: row.nums[1] == 1,
                total_investments: row.nums[2],
                portfolio_value: row.nums[3],
            },
        )
    }

    proof fn lemma_of_row_canonical(row: RowView) {
        let back = Self::row_of(Self::of_row(row).unwrap());
        decode_utf8_encode_utf8(row.blobs[1]);
        decode_utf8_encode_utf8(row.blobs[2]);
        decode_utf8_encode_utf8(row.blobs[3]);
        decode_utf8_encode_utf8(row.blobs[4]);
        assert(back.nums =~= row.nums);
        assert(back.blobs =~= row.blobs);
    }
}

/// What a caller supplies to register.
#[derive(Clone, Debug)]
pub struct CreateUserRequest {
    pub email: String,
    pub name: String,
    pub wallet_address: String,
}

/// What a caller supplies to set the verification status of a user.
#[derive(Clone, Debug)]
pub struct UpdateKycStatusRequest {
    pub user_principal: Vec<u8>,
    pub new_status: String,
}

/// What a caller supplies to set the investment figures of a user.
#[derive(Clone, Debug)]
pub struct UpdatePortfolioRequest {
    pub user_principal: Vec<u8>,
    pub total_investments: u64,
    pub portfolio_value: u64,
}

/// Why an operation on the users was refused.
#[derive(Clone, Copy, Debug, PartialEq, Eq, Structural)]
pub enum UserError {
    /// The identity is registered already.
    AlreadyExists,
    /// No user is registered under the identity.
    NotFound,
}

impl UserError {
    /// What is said to the caller of a refused operation.
    pub open spec fn text(self) -> Seq<char> {
        match self {
            UserError::AlreadyExists => "User already exists"@,
            UserError::NotFound => "User not found"@,
        }
    }

    /// What is said to the caller of a refused operation.
    pub fn message(&self) -> (s: String)
        ensures
            s@ == self.text(),
    {
        match self {
            UserError::AlreadyExists => "User already exists".to_owned(),
            UserError::NotFound => "User not found".to_owned(),
        }
    }
}

/// How many users there are, how many of them are verified, and how many
/// are active.
#[derive(Clone, Copy, Debug, PartialEq, Eq, Structural)]
pub struct UserStats {
    pub total_users: u64,
    pub verified_users: u64,
    pub active_users: u64,
}

/// The users with one identity.
pub open spec fn known_as(principal: Seq<u8>) -> spec_fn(UserView) -> bool {
    |u: UserView| u.principal == principal
}

/// The users with one e-mail address.
pub open spec fn with_email(email: Seq<char>) -> spec_fn(UserView) -> bool {
    |u: UserView| u.email == email
}

/// The users with one wallet address.
pub open spec fn with_wallet(wallet_address: Seq<char>) -> spec_fn(UserView) -> bool {
    |u: UserView| u.wallet_address == wallet_address
}

/// The users that are verified.
pub open spec fn verified() -> spec_fn(UserView) -> bool {
    |u: UserView| u.kyc_status == "verified"@
}

/// The users that are active.
pub open spec fn active() -> spec_fn(UserView) -> bool {
    |u: UserView| u.is_active
}

/// The users that are verified and active.
pub open spec fn verified_and_active() -> spec_fn(UserView) -> bool {
    |u: UserView| u.kyc_status == "verified"@ && u.is_active
}

/// A user is registered under the identity.
pub open spec fn enrolled(users: Map<u64, UserView>, principal: Seq<u8>) -> bool {
    exists|k: u64| #[trigger] users.contains_key(k) && users[k].principal == principal
}

/// The lowest enrolment number under which the identity is registered.
pub open spec fn number_of(users: Map<u64, UserView>, principal: Seq<u8>) -> u64 {
    choose|k: u64| is_first(users, known_as(principal), k)
}

/// The user that is registered under the identity.
pub open spec fn user_of(users: Map<u64, UserView>, principal: Seq<u8>) -> UserView {
    users[number_of(users, principal)]
}

/// No identity is registered twice.
pub open spec fn one_user_per_identity(users: Map<u64, UserView>) -> bool {
    forall|a: u64, b: u64|
        users.contains_key(a) && users.contains_key(b) && (#[trigger] users[a]).principal == (
        #[trigger] users[b]).principal ==> a == b
}

/// The user that a request registers under the identity `principal` at the
/// time `now`: active, pending verification, with no investments.
pub open spec fn new_user(req: CreateUserRequest, principal: Seq<u8>, now: u64) -> UserView {
    UserView {
        principal,
        email: req.email@,
        name: req.name@,
        kyc_status: "pending"@,
        wallet_address: req.wallet_address@,
        registration_date: now,
        is_active: true,
        total_investments: 0,
        portfolio_value: 0,
    }
}

/// Where a lowest key meets a predicate, it is the only lowest key that
/// does.
pub proof fn lemma_first_is_one<V>(m: Map<u64, V>, pred: spec_fn(V) -> bool, a: u64, b: u64)
    requires
        is_first(m, pred, a),
        is_first(m, pred, b),
    ensures
        a == b,
{
}

/// The durable state of the users: the enrolment counter and the users.
pub struct UserStore {
    ids: IdAllocator,
    users: Table,
}

impl UserStore {
    /// The enrolment counter, by sequence.
    pub closed spec fn counters(&self) -> Map<u8, u64> {
        self.ids@
    }

    /// The stored users, by enrolment number.
    pub closed spec fn users(&self) -> Map<u64, UserView> {
        records::<User>(table_rows(self.users))
    }

    /// Every enrolment number in use was issued by the allocator, and no
    /// identity is registered twice.
    pub open spec fn wf(&self) -> bool {
        &&& forall|k: u64| #[trigger]
            self.users().contains_key(k) ==> 1 <= k <= level(self.counters(), ENROLMENT_SEQUENCE)
        &&& one_user_per_identity(self.users())
    }

    /// The enrolment number that the next user gets.
    pub open spec fn next_number(&self) -> u64 {
        (level(self.counters(), ENROLMENT_SEQUENCE) + 1) as u64
    }

    /// The store can take the user that `req` asks for, under the identity
    /// `principal`: the next enrolment number is within `u64`, and the user
    /// is short enough to be stored.
    pub open spec fn room_for_user(&self, req: CreateUserRequest, principal: Seq<u8>) -> bool {
        &&& level(self.counters(), ENROLMENT_SEQUENCE) < u64::MAX
        &&& fits::<User>(new_user(req, principal, 0))
    }

    /// The user under the identity `principal`, if there is one, is short
    /// enough to be stored with the verification status `status`.
    pub open spec fn room_for_kyc_status(&self, principal: Seq<u8>, status: Seq<char>) -> bool {
        enrolled(self.users(), principal) ==> fits::<User>(
            UserView { kyc_status: status, ..user_of(self.users(), principal) },
        )
    }

    /// The user under the identity `principal`, if there is one, is short
    /// enough to be stored with the name `name` and the e-mail address
    /// `email`.
    pub open spec fn room_for_profile(
        &self,
        principal: Seq<u8>,
        name: Seq<char>,
        email: Seq<char>,
    ) -> bool {
        enrolled(self.users(), principal) ==> fits::<User>(
            UserView { name, email, ..user_of(self.users(), principal) },
        )
    }

    /// A fresh store in the regions 0 and 1 of the pool, whatever they held:
    /// no user, the counter at zero.
    pub fn new(pool: MemoryPool) -> (s: UserStore)
        ensures
            s.wf(),
            s.users() == Map::<u64, UserView>::empty(),
            level(s.counters(), ENROLMENT_SEQUENCE) == 0,
    {
        let (users, counters, _) = pool.split(0, 1, 2);
        let mut ids = IdAllocator::new(counters);
        ids.start(ENROLMENT_SEQUENCE);
        let s = UserStore { ids, users: table_new(users) };
        assert(s.users() =~= Map::<u64, UserView>::empty());
        s
    }

    /// The store that the regions 0 and 1 of the pool hold: whatever is
    /// stored there, and an empty table where nothing is.
    pub fn open(pool: MemoryPool) -> (s: UserStore) {
        let (users, counters, _) = pool.split(0, 1, 2);
        UserStore { ids: IdAllocator::open(counters), users: table_open(users) }
    }

    /// Prepares the store for use. There is nothing to prepare: the store
    /// is left as it is.
    pub fn init(&mut self)
        ensures
            final(self).counters() == old(self).counters(),
            final(self).users() == old(self).users(),
    {
    }

    /// The user under the identity, with its enrolment number, if there is
    /// one.
    fn locate(&self, principal: &Vec<u8>) -> (r: Option<(u64, User)>)
        ensures
            r is Some <==> enrolled(self.users(), principal@),
            r is Some ==> {
                &&& r.unwrap().0 == number_of(self.users(), principal@)
                &&& self.users().contains_key(r.unwrap().0)
                &&& r.unwrap().1@ == user_of(self.users(), principal@)
                &&& r.unwrap().1@.principal == principal@
                &&& fits::<User>(r.unwrap().1@)
                &&& r.unwrap().1@ == listing(self.users()).filter(known_as(principal@))[0]
            },
    {
        let keep = |u: &User| -> (b: bool)
            ensures
                b == known_as(principal@)(u@),
            { same_bytes(&u.principal, principal) };
        let r = find_first::<User, _>(&self.users, keep, Ghost(known_as(principal@)));
        proof {
            if r is Some {
                let k = r.unwrap().0;
                lemma_first_selected(self.users(), known_as(principal@), k);
                lemma_first_is_one(
                    self.users(),
                    known_as(principal@),
                    k,
                    number_of(self.users(), principal@),
                );
            } else {
                assert forall|k: u64| #[trigger] self.users().contains_key(k) implies !(
                self.users()[k].principal == principal@) by {
                    assert(!known_as(principal@)(self.users()[k]));
                }
            }
        }
        r
    }

    /// Whether the store can take the user that `req` asks for, under the
    /// identity `principal`.
    pub fn has_room_for_user(&self, req: &CreateUserRequest, principal: &Vec<u8>) -> (b: bool)
        ensures
            b == self.room_for_user(*req, principal@),
    {
        if self.ids.last(ENROLMENT_SEQUENCE) == u64::MAX {
            return false;
        }
        let draft = User {
            principal: copy_bytes(principal),
            email: req.email.clone(),
            name: req.name.clone(),
            kyc_status: "pending".to_owned(),
            wallet_address: req.wallet_address.clone(),
            registration_date: 0,
            is_active: true,
            total_investments: 0,
            portfolio_value: 0,
        };
        can_store(&draft)
    }

    /// Whether the user under the identity, if there is one, is short
    /// enough to be stored with the verification status `status`.
    pub fn has_room_for_kyc_status(&self, principal: &Vec<u8>, status: &String) -> (b: bool)
        ensures
            b == self.room_for_kyc_status(principal@, status@),
    {
        match self.locate(principal) {
            None => true,
            Some((_, mut user)) => {
                user.kyc_status = status.clone();
                can_store(&user)
            },
        }
    }

    /// Whether the user under the identity, if there is one, is short
    /// enough to be stored with the name `name` and the e-mail address
    /// `email`.
    pub fn has_room_for_profile(&self, principal: &Vec<u8>, name: &String, email: &String) -> (b:
        bool)
        ensures
            b == self.room_for_profile(principal@, name@, email@),
    {
        match self.locate(principal) {
            None => true,
            Some((_, mut user)) => {
                user.name = name.clone();
                user.email = email.clone();
                can_store(&user)
            },
        }
    }

    /// Registers a user under the identity `principal` at the time `now`:
    /// active, pending verification, with no investments. Fails with
    /// `AlreadyExists`, and changes nothing, if the identity is registered
    /// already.
    pub fn create_user(&mut self, req: CreateUserRequest, principal: Vec<u8>, now: u64) -> (r:
        Result<User, UserError>)
        requires
            !enrolled(old(self).users(), principal@) ==> old(self).room_for_user(req, principal@),
        ensures
            match r {
                Ok(u) => {
                    &&& !enrolled(old(self).users(), principal@)
                    &&& u@ == new_user(req, principal@, now)
                    &&& final(self).counters() == issue(
                        old(self).counters(),
                        ENROLMENT_SEQUENCE,
                    )
                    &&& final(self).users() == old(self).users().insert(
                        old(self).next_number(),
                        u@,
                    )
                },
                Err(e) => {
                    &&& e == UserError::AlreadyExists
                    &&& enrolled(old(self).users(), principal@)
                    &&& final(self).counters() == old(self).counters()
                    &&& final(self).users() == old(self).users()
                },
            },
            old(self).wf() ==> final(self).wf(),
    {
        if self.locate(&principal).is_some() {
            return Err(UserError::AlreadyExists);
        }
        let number = self.ids.next(ENROLMENT_SEQUENCE);
        let user = User {
            principal,
            email: req.email,
            name: req.name,
            kyc_status: "pending".to_owned(),
            wallet_address: req.wallet_address,
            registration_date: now,
            is_active: true,
            total_investments: 0,
            portfolio_value: 0,
        };
        proof {
            lemma_fits_by_shape::<User>(new_user(req, principal@, 0), user@);
        }
        store(&mut self.users, number, &user);
        proof {
            if old(self).wf() {
                assert forall|k: u64| #[trigger] self.users().contains_key(k) implies 1 <= k
                    <= level(self.counters(), ENROLMENT_SEQUENCE) by {
                    if k != number {
                        assert(old(self).users().contains_key(k));
                    }
                }
                assert forall|a: u64, b: u64|
                    self.users().contains_key(a) && self.users().contains_key(b) && (
                    #[trigger] self.users()[a]).principal == (
                    #[trigger] self.users()[b]).principal implies a == b by {
                    if a != number {
                        assert(old(self).users().contains_key(a));
                    }
                    if b != number {
                        assert(old(self).users().contains_key(b));
                    }
                }
            }
        }
        Ok(user)
    }

    /// The user under the identity, if there is one.
    pub fn get_user(&self, principal: &Vec<u8>) -> (r: Option<User>)
        ensures
            r is Some <==> enrolled(self.users(), principal@),
            r is Some ==> r.unwrap()@ == user_of(self.users(), principal@),
            r is Some ==> r.unwrap()@ == listing(self.users()).filter(known_as(principal@))[0],
    {
        match self.locate(principal) {
            Some((_, user)) => Some(user),
            None => None,
        }
    }

    /// All users, in the order of their enrolment.
    pub fn get_all_users(&self) -> (out: Vec<User>)
        ensures
            views(out@) == listing(self.users()),
    {
        scan::<User>(&self.users)
    }

    /// The users that are verified and active, in the order of their
    /// enrolment.
    pub fn get_verified_users(&self) -> (out: Vec<User>)
        ensures
            views(out@) == listing(self.users()).filter(verified_and_active()),
    {
        let keep = |u: &User| -> (b: bool)
            ensures
                b == verified_and_active()(u@),
            { text_is(&u.kyc_status, "verified") && u.is_active };
        scan_where::<User, _>(&self.users, keep, Ghost(verified_and_active()))
    }

    /// Stores `user` in place of the user under the enrolment number
    /// `number`, whose identity it shares.
    fn replace(&mut self, number: u64, user: &User)
        requires
            old(self).users().contains_key(number),
            old(self).users()[number].principal == user@.principal,
            fits::<User>(user@),
        ensures
            final(self).counters() == old(self).counters(),
            final(self).users() == old(self).users().insert(number, user@),
            old(self).wf() ==> final(self).wf(),
    {
        store(&mut self.users, number, user);
        proof {
            if old(self).wf() {
                assert forall|k: u64| #[trigger] self.users().contains_key(k) implies 1 <= k
                    <= level(self.counters(), ENROLMENT_SEQUENCE) by {
                    assert(old(self).users().contains_key(k));
                }
                assert forall|a: u64, b: u64|
                    self.users().contains_key(a) && self.users().contains_key(b) && (
                    #[trigger] self.users()[a]).principal == (
                    #[trigger] self.users()[b]).principal implies a == b by {
                    assert(old(self).users().contains_key(a));
                    assert(old(self).users().contains_key(b));
                    assert(old(self).users()[a].principal == self.users()[a].principal);
                    assert(old(self).users()[b].principal == self.users()[b].principal);
                }
            }
        }
    }

    /// Overwrites the verification status of a user, and returns the user
    /// as it then is; fails with `NotFound`, and changes nothing, if no user
    /// is registered under the identity.
    pub fn update_kyc_status(&mut self, req: UpdateKycStatusRequest) -> (r: Result<User, UserError>)
        requires
            old(self).room_for_kyc_status(req.user_principal@, req.new_status@),
        ensures
            final(self).counters() == old(self).counters(),
            match r {
                Ok(u) => {
                    &&& enrolled(old(self).users(), req.user_principal@)
                    &&& u@ == (UserView {
                        kyc_status: req.new_status@,
                        ..user_of(old(self).users(), req.user_principal@)
                    })
                    &&& final(self).users() == old(self).users().insert(
                        number_of(old(self).users(), req.user_principal@),
                        u@,
                    )
                },
                Err(e) => {
                    &&& e == UserError::NotFound
                    &&& !enrolled(old(self).users(), req.user_principal@)
                    &&& final(self).users() == old(self).users()
                },
            },
            old(self).wf() ==> final(self).wf(),
    {
        match self.locate(&req.user_principal) {
            None => Err(UserError::NotFound),
            Some((number, mut user)) => {
                user.kyc_status = req.new_status;
                self.replace(number, &user);
                Ok(user)
            },
        }
    }

    /// Overwrites the name and the e-mail address of the user under the
    /// identity `principal`, and returns the user as it then is; fails with
    /// `NotFound`, and changes nothing, if no user is registered under the
    /// identity.
    pub fn update_user_profile(&mut self, principal: &Vec<u8>, name: String, email: String) -> (r:
        Result<User, UserError>)
        requires
            old(self).room_for_profile(principal@, name@, email@),
        ensures
            final(self).counters() == old(self).counters(),
            match r {
                Ok(u) => {
                    &&& enrolled(old(self).users(), principal@)
                    &&& u@ == (UserView {
                        name: name@,
                        email: email@,
                        ..user_of(old(self).users(), principal@)
                    })
                    &&& final(self).users() == old(self).users().insert(
                        number_of(old(self).users(), principal@),
                        u@,
                    )
                },
                Err(e) => {
                    &&& e == UserError::NotFound
                    &&& !enrolled(old(self).users(), principal@)
                    &&& final(self).users() == old(self).users()
                },
            },
            old(self).wf() ==> final(self).wf(),
    {
        match self.locate(principal) {
            None => Err(UserError::NotFound),
            Some((number, mut user)) => {
                user.name = name;
                user.email = email;
                self.replace(number, &user);
                Ok(user)
            },
        }
    }

    /// Overwrites the investment figures of a user, and returns the user as
    /// it then is; fails with `NotFound`, and changes nothing, if no user is
    /// registered under the identity.
    pub fn update_portfolio_value(&mut self, req: UpdatePortfolioRequest) -> (r: Result<
        User,
        UserError,
    >)
        ensures
            final(self).counters() == old(self).counters(),
            match r {
                Ok(u) => {
                    &&& enrolled(old(self).users(), req.user_principal@)
                    &&& u@ == (UserView {
                        total_investments: req.total_investments,
                        portfolio_value: req.portfolio_value,
                        ..user_of(old(self).users(), req.user_principal@)
                    })
                    &&& final(self).users() == old(self).users().insert(
                        number_of(old(self).users(), req.user_principal@),
                        u@,
                    )
                },
                Err(e) => {
                    &&& e == UserError::NotFound
                    &&& !enrolled(old(self).users(), req.user_principal@)
                    &&& final(self).users() == old(self).users()
                },
            },
            old(self).wf() ==> final(self).wf(),
    {
        match self.locate(&req.user_principal) {
            None => Err(UserError::NotFound),
            Some((number, mut user)) => {
                let ghost before = user@;
                user.total_investments = req.total_investments;
                user.portfolio_value = req.portfolio_value;
                proof {
                    lemma_fits_by_shape::<User>(before, user@);
                }
                self.replace(number, &user);
                Ok(user)
            },
        }
    }

    /// Turns the user under the identity inactive, and returns the user as
    /// it then is; fails with `NotFound`, and changes nothing, if no user is
    /// registered under the identity.
    pub fn deactivate_user(&mut self, principal: &Vec<u8>) -> (r: Result<User, UserError>)
        ensures
            final(self).counters() == old(self).counters(),
            match r {
                Ok(u) => {
                    &&& enrolled(old(self).users(), principal@)
                    &&& u@ == (UserView {
                        is_active: false,
                        ..user_of(old(self).users(), principal@)
                    })
                    &&& final(self).users() == old(self).users().insert(
                        number_of(old(self).users(), principal@),
                        u@,
                    )
                },
                Err(e) => {
                    &&& e == UserError::NotFound
                    &&& !enrolled(old(self).users(), principal@)
                    &&& final(self).users() == old(self).users()
                },
            },
            old(self).wf() ==> final(self).wf(),
    {
        match self.locate(principal) {
            None => Err(UserError::NotFound),
            Some((number, mut user)) => {
                let ghost before = user@;
                user.is_active = false;
                proof {
                    lemma_fits_by_shape::<User>(before, user@);
                }
                self.replace(number, &user);
                Ok(user)
            },
        }
    }

    /// The user with the given e-mail address, if there is one: of several,
    /// the one that enrolled first.
    pub fn get_user_by_email(&self, email: &String) -> (r: Option<User>)
        ensures
            r is Some <==> listing(self.users()).filter(with_email(email@)).len() > 0,
            r is Some ==> r.unwrap()@ == listing(self.users()).filter(with_email(email@))[0],
    {
        let keep = |u: &User| -> (b: bool)
            ensures
                b == with_email(email@)(u@),
            { u.email == *email };
        match find_first::<User, _>(&self.users, keep, Ghost(with_email(email@))) {
            Some((k, user)) => {
                proof {
                    lemma_first_selected(self.users(), with_email(email@), k);
                }
                Some(user)
            },
            None => {
                proof {
                    lemma_selection_empty(self.users(), with_email(email@));
                }
                None
            },
        }
    }

    /// The user with the given wallet address, if there is one: of several,
    /// the one that enrolled first.
    pub fn get_user_by_wallet(&self, wallet_address: &String) -> (r: Option<User>)
        ensures
            r is Some <==> listing(self.users()).filter(with_wallet(wallet_address@)).len() > 0,
            r is Some ==> r.unwrap()@ == listing(self.users()).filter(
                with_wallet(wallet_address@),
            )[0],
    {
        let keep = |u: &User| -> (b: bool)
            ensures
                b == with_wallet(wallet_address@)(u@),
            { u.wallet_address == *wallet_address };
        match find_first::<User, _>(&self.users, keep, Ghost(with_wallet(wallet_address@))) {
            Some((k, user)) => {
                proof {
                    lemma_first_selected(self.users(), with_wallet(wallet_address@), k);
                }
                Some(user)
            },
            None => {
                proof {
                    lemma_selection_empty(self.users(), with_wallet(wallet_address@));
                }
                None
            },
        }
    }

    /// How many users there are, how many of them are verified, whether
    /// active or not, and how many are active.
    pub fn get_user_stats(&self) -> (r: UserStats)
        ensures
            r.total_users == listing(self.users()).len(),
            r.verified_users == listing(self.users()).filter(verified()).len(),
            r.active_users == listing(self.users()).filter(active()).len(),
    {
        let all = scan::<User>(&self.users);
        let ghost vs = views(all@);
        let n = all.len();
        let mut verified_users: usize = 0;
        let mut active_users: usize = 0;
        let mut i: usize = 0;
        proof {
            reveal(Seq::filter);
            assert(vs.take(0).filter(verified()) =~= Seq::<UserView>::empty());
            assert(vs.take(0).filter(active()) =~= Seq::<UserView>::empty());
        }
        while i < n
            invariant
                n == all@.len(),
                vs == views(all@),
                0 <= i <= n,
                verified_users == vs.take(i as int).filter(verified()).len(),
                active_users == vs.take(i as int).filter(active()).len(),
                verified_users <= i,
                active_users <= i,
            decreases n - i,
        {
            proof {
                assert(vs.take(i + 1) =~= vs.take(i as int).push(vs[i as int]));
                crate::ordered::lemma_filter_push(vs.take(i as int), vs[i as int], verified());
                crate::ordered::lemma_filter_push(vs.take(i as int), vs[i as int], active());
            }
            if text_is(&all[i].kyc_status, "verified") {
                verified_users += 1;
            }
            if all[i].is_active {
                active_users += 1;
            }
            i += 1;
        }
        assert(vs.take(n as int) =~= vs);
        UserStats {
            total_users: n as u64,
            verified_users: verified_users as u64,
            active_users: active_users as u64,
        }
    }
}

} // verus!
