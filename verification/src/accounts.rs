//! Ledger accounts and their textual form, `principal.subaccount`.

use crate::views::option_view;
use vstd::prelude::*;

verus! {

/// The most bytes that a principal can have.
pub const MAX_PRINCIPAL_LENGTH: usize = 29;

/// The textual form of the subaccount that an account without one stands for.
pub const DEFAULT_SUBACCOUNT: &'static str =
    "0000000000000000000000000000000000000000000000000000000000000000";

/// The identity of a canister or a user: at most 29 bytes.
pub struct Principal {
    bytes: Vec<u8>,
}

impl View for Principal {
    type V = Seq<u8>;

    closed spec fn view(&self) -> Seq<u8> {
        self.bytes@
    }
}

impl Principal {
    #[verifier::type_invariant]
    spec fn short_enough(&self) -> bool {
        self.bytes@.len() <= MAX_PRINCIPAL_LENGTH
    }

    /// The principal made of `bytes`; `None` exactly when they are too many.
    pub fn try_from_bytes(bytes: Vec<u8>) -> (result: Option<Principal>)
        ensures
            match result {
                Some(principal) => bytes@.len() <= MAX_PRINCIPAL_LENGTH && principal@ == bytes@,
                None => bytes@.len() > MAX_PRINCIPAL_LENGTH,
            },
    {
        if bytes.len() <= MAX_PRINCIPAL_LENGTH {
            Some(Principal { bytes })
        } else {
            None
        }
    }

    /// The textual form of this principal, which no other principal has.
    pub fn to_text(&self) -> (text: String)
        ensures
            text@ == principal_text(self@),
            self@.len() <= MAX_PRINCIPAL_LENGTH,
            forall|other: Seq<u8>|
                other.len() <= MAX_PRINCIPAL_LENGTH && #[trigger] principal_text(other) == text@
                    ==> other == self@,
    {
        proof {
            use_type_invariant(self);
        }
        principal_to_text(self.bytes.as_slice())
    }
}

/// An account: an owner, and optionally one of the owner's subaccounts.
pub struct Account {
    pub owner: Principal,
    pub subaccount: Option<Vec<u8>>,
}

/// The mathematical counterpart of [`Account`].
pub struct AccountView {
    pub owner: Seq<u8>,
    pub subaccount: Option<Seq<u8>>,
}

impl View for Account {
    type V = AccountView;

    open spec fn view(&self) -> AccountView {
        AccountView { owner: self.owner@, subaccount: option_view(self.subaccount) }
    }
}

/// The text that `candid::Principal::to_text` gives for the principal with these bytes.
pub uninterp spec fn principal_text(bytes: Seq<u8>) -> Seq<char>;

/// The lower-case hexadecimal digit with value `value`.
pub open spec fn hex_digit(value: int) -> char {
    seq!['0', '1', '2', '3', '4', '5', '6', '7', '8', '9', 'a', 'b', 'c', 'd', 'e', 'f'][value]
}

/// The bytes as hexadecimal digits: two for each byte, the high half first.
pub open spec fn hex_text(bytes: Seq<u8>) -> Seq<char> {
    Seq::new(
        2 * bytes.len(),
        |i: int|
            if i % 2 == 0 {
                hex_digit(bytes[i / 2] as int / 16)
            } else {
                hex_digit(bytes[i / 2] as int % 16)
            },
    )
}

/// The textual form of an optional subaccount.
pub open spec fn subaccount_text(subaccount: Option<Seq<u8>>) -> Seq<char> {
    match subaccount {
        Some(bytes) => hex_text(bytes),
        None => DEFAULT_SUBACCOUNT@,
    }
}

/// The owner's text and the subaccount's text, with a dot between them.
pub open spec fn joined_account_text(owner: Seq<char>, subaccount: Option<Seq<u8>>) -> Seq<char> {
    owner + "."@ + subaccount_text(subaccount)
}

/// The textual form of an account.
pub open spec fn account_text(account: AccountView) -> Seq<char> {
    joined_account_text(principal_text(account.owner), account.subaccount)
}

/// The subaccount that an account stands for: 32 zero bytes where it names none.
pub open spec fn effective_subaccount(account: AccountView) -> Seq<u8> {
    match account.subaccount {
        Some(bytes) => bytes,
        None => Seq::new(32, |i: int| 0u8),
    }
}

/// Calls `candid::Principal::from_slice` and `candid::Principal::to_text`.
///
/// `from_slice` panics on more than 29 bytes, which are excluded. The result is a function of
/// the bytes alone (a checksum and the bytes in base 32, in groups); it is named, not spelled
/// out. It tells the bytes: no other principal has the same text.
#[verifier::external_body]
fn principal_to_text(bytes: &[u8]) -> (text: String)
    requires
        bytes@.len() <= MAX_PRINCIPAL_LENGTH,
    ensures
        text@ == principal_text(bytes@),
        forall|other: Seq<u8>|
            other.len() <= MAX_PRINCIPAL_LENGTH && #[trigger] principal_text(other) == text@
                ==> other == bytes@,
{
    candid::Principal::from_slice(bytes).to_text()
}

/// Calls `hex::encode`: each byte becomes two lower-case hexadecimal digits, high half first.
#[verifier::external_body]
fn hex_encode(bytes: &[u8]) -> (text: String)
    ensures
        text@ == hex_text(bytes@),
{
    hex::encode(bytes)
}

/// Puts the text of an owner and an optional subaccount together.
pub fn join_account(owner: String, subaccount: Option<Vec<u8>>) -> (text: String)
    ensures
        text@ == joined_account_text(owner@, option_view(subaccount)),
{
    let encoded: String = match subaccount {
        Some(bytes) => hex_encode(bytes.as_slice()),
        None => DEFAULT_SUBACCOUNT.to_owned(),
    };
    owner.concat(".").concat(encoded.as_str())
}

/// The textual form of an account, `principal.subaccount`.
///
/// The text tells the account: any account with the same text has the same owner and stands for
/// the same subaccount.
pub fn icrc_account_to_string(account: Account) -> (text: String)
    ensures
        text@ == account_text(account@),
        account@.owner.len() <= MAX_PRINCIPAL_LENGTH,
        forall|other: AccountView|
            other.owner.len() <= MAX_PRINCIPAL_LENGTH && #[trigger] account_text(other) == text@
                ==> other.owner == account@.owner && effective_subaccount(other)
                == effective_subaccount(account@),
{
    let ghost viewed = account@;
    let owner: String = account.owner.to_text();
    let text: String = join_account(owner, account.subaccount);
    assert forall|other: AccountView|
        other.owner.len() <= MAX_PRINCIPAL_LENGTH && #[trigger] account_text(other)
            == text@ implies other.owner == viewed.owner && effective_subaccount(other)
        == effective_subaccount(viewed) by {
        law_account_text_determines_account(other, viewed);
        assert(principal_text(other.owner) == owner@);
    }
    text
}

/// An account without a subaccount and the same owner's account with the subaccount of 32 zero
/// bytes have the same text.
pub proof fn law_default_subaccount(owner: Seq<u8>)
    ensures
        account_text(AccountView { owner, subaccount: None }) == account_text(
            AccountView { owner, subaccount: Some(Seq::new(32, |i: int| 0u8)) },
        ),
{
    reveal_strlit(
        "0000000000000000000000000000000000000000000000000000000000000000",
    );
    assert(DEFAULT_SUBACCOUNT@ =~= hex_text(Seq::new(32, |i: int| 0u8)));
}

/// The text of an account tells its owner's text and its subaccount: two accounts with the same
/// text have owners with the same text and stand for the same subaccount. That the owners are
/// then the same is stated where the text is made, by `icrc_account_to_string`.
pub proof fn law_account_text_determines_account(a: AccountView, b: AccountView)
    requires
        account_text(a) == account_text(b),
    ensures
        principal_text(a.owner) == principal_text(b.owner),
        effective_subaccount(a) == effective_subaccount(b),
{
    lemma_account_text(a);
    lemma_account_text(b);
    let sub_a = hex_text(effective_subaccount(a));
    let sub_b = hex_text(effective_subaccount(b));
    let owner_a = principal_text(a.owner);
    let owner_b = principal_text(b.owner);
    let text_a = owner_a.push('.') + sub_a;
    let text_b = owner_b.push('.') + sub_b;
    assert(text_a == text_b);
    assert(text_a.len() == owner_a.len() + 1 + sub_a.len());
    assert(text_b.len() == owner_b.len() + 1 + sub_b.len());
    // The dot is the last one in the text, so it stands at the same place in both.
    if owner_a.len() < owner_b.len() {
        assert(text_b[owner_b.len() as int] == '.');
        assert(text_a[owner_b.len() as int] == sub_a[owner_b.len() - owner_a.len() - 1]);
    }
    if owner_b.len() < owner_a.len() {
        assert(text_a[owner_a.len() as int] == '.');
        assert(text_b[owner_a.len() as int] == sub_b[owner_a.len() - owner_b.len() - 1]);
    }
    assert(owner_a =~= text_a.take(owner_a.len() as int));
    assert(owner_b =~= text_b.take(owner_b.len() as int));
    assert(sub_a =~= text_a.skip(owner_a.len() as int + 1));
    assert(sub_b =~= text_b.skip(owner_b.len() as int + 1));
    lemma_hex_text_injective(effective_subaccount(a), effective_subaccount(b));
}

/// The text of an account ends in a dot and the digits of the subaccount it stands for.
proof fn lemma_account_text(account: AccountView)
    ensures
        account_text(account) == principal_text(account.owner).push('.') + hex_text(
            effective_subaccount(account),
        ),
{
    reveal_strlit(".");
    reveal_strlit(
        "0000000000000000000000000000000000000000000000000000000000000000",
    );
    assert(DEFAULT_SUBACCOUNT@ =~= hex_text(Seq::new(32, |i: int| 0u8)));
    assert("."@ =~= seq!['.']);
    assert(principal_text(account.owner) + "."@ =~= principal_text(account.owner).push('.'));
}

/// Different byte strings have different hexadecimal texts.
proof fn lemma_hex_text_injective(a: Seq<u8>, b: Seq<u8>)
    requires
        hex_text(a) == hex_text(b),
    ensures
        a == b,
{
    assert(hex_text(a).len() == 2 * a.len());
    assert(hex_text(b).len() == 2 * b.len());
    assert forall|i: int| 0 <= i < a.len() implies a[i] == b[i] by {
        assert(hex_text(a)[2 * i] == hex_digit(a[i] as int / 16));
        assert(hex_text(b)[2 * i] == hex_digit(b[i] as int / 16));
        assert(hex_text(a)[2 * i + 1] == hex_digit(a[i] as int % 16));
        assert(hex_text(b)[2 * i + 1] == hex_digit(b[i] as int % 16));
    }
    assert(a =~= b);
}

/// The character is the lower-case hexadecimal digit with this value.
pub open spec fn writes_digit(character: char, value: int) -> bool {
    if value < 10 {
        character as int == '0' as int + value
    } else {
        character as int == 'a' as int + value - 10
    }
}

/// The joined text is the owner's text, a dot, and two digits for each byte of the subaccount, the
/// high half of a byte first. No subaccount is written as 32 zero bytes.
pub proof fn law_joined_text_spelled(owner: Seq<char>, subaccount: Option<Seq<u8>>)
    ensures
        ({
            let text = joined_account_text(owner, subaccount);
            let after = owner.len() + 1;
            &&& text.take(owner.len() as int) == owner
            &&& text[owner.len() as int] == '.'
            &&& match subaccount {
                Some(bytes) => {
                    &&& text.len() == after + 2 * bytes.len()
                    &&& forall|i: int|
                        0 <= i < bytes.len() ==> writes_digit(
                            text[after + 2 * i],
                            #[trigger] bytes[i] as int / 16,
                        ) && writes_digit(text[after + 2 * i + 1], bytes[i] as int % 16)
                },
                None => {
                    &&& text.len() == after + 64
                    &&& forall|i: int| after <= i < text.len() ==> #[trigger] text[i] == '0'
                },
            }
        }),
{
    reveal_strlit(".");
    reveal_strlit(
        "0000000000000000000000000000000000000000000000000000000000000000",
    );
    let text = joined_account_text(owner, subaccount);
    let after = owner.len() + 1;
    assert(text.take(owner.len() as int) =~= owner);
    match subaccount {
        Some(bytes) => {
            assert forall|i: int| 0 <= i < bytes.len() implies writes_digit(
                text[after + 2 * i],
                #[trigger] bytes[i] as int / 16,
            ) && writes_digit(text[after + 2 * i + 1], bytes[i] as int % 16) by {
                assert(text[after + 2 * i] == hex_text(bytes)[2 * i]);
                assert(text[after + 2 * i + 1] == hex_text(bytes)[2 * i + 1]);
            }
        },
        None => {
            assert forall|i: int| after <= i < text.len() implies #[trigger] text[i] == '0' by {
                assert(text[i] == DEFAULT_SUBACCOUNT@[i - after]);
            }
        },
    }
}

/// The text of an account is its owner's text joined with its subaccount.
pub proof fn law_account_text_joined(account: AccountView)
    ensures
        account_text(account) == joined_account_text(
            principal_text(account.owner),
            account.subaccount,
        ),
{
}

/// An account's counterpart has the same owner and the same subaccount.
pub proof fn law_account_view(account: Account)
    ensures
        account@.owner == account.owner@,
        account@.subaccount is Some <==> account.subaccount is Some,
        account.subaccount is Some ==> account@.subaccount->0 == account.subaccount->0@,
{
}

} // verus!
