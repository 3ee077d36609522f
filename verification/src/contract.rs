use vstd::prelude::*;
use crate::error::ContractError;
use crate::msg::{ExecuteMsg, InstantiateMsg};
use crate::response::Response;
use crate::state::{SecretStore, UserInfo};
use crate::totp::{
    base32_decoded, code_accepted, expected_code, is_base32_symbol, is_base32_text,
    lemma_current_code_accepted, time_counter, verify_totp,
};

verus! {

/// The table of secrets after `sender` registers `secret_key`.
pub open spec fn registration(
    records: Map<Seq<u8>, Seq<char>>,
    sender: Seq<u8>,
    secret_key: Seq<char>,
) -> Map<Seq<u8>, Seq<char>> {
    records.insert(sender, secret_key)
}

/// How a submitted code fares against one registered secret.
pub open spec fn secret_outcome(secret_key: Seq<char>, code: Seq<char>, now: u64) -> Result<
    (),
    ContractError,
> {
    if !is_base32_text(secret_key) {
        Err(ContractError::Encoding)
    } else if code_accepted(base32_decoded(secret_key), code, now) {
        Ok(())
    } else {
        Err(ContractError::InvalidCode)
    }
}

/// How an authentication attempt of `sender` fares against the table.
pub open spec fn authentication(
    records: Map<Seq<u8>, Seq<char>>,
    sender: Seq<u8>,
    code: Seq<char>,
    now: u64,
) -> Result<(), ContractError> {
    if records.contains_key(sender) {
        secret_outcome(records[sender], code, now)
    } else {
        Err(ContractError::NotRegistered)
    }
}

/// The attributes of a successful registration.
pub open spec fn register_attributes() -> Seq<(Seq<char>, Seq<char>)> {
    seq![("action"@, "register"@)]
}

/// The attributes of a successful authentication.
pub open spec fn authenticate_attributes() -> Seq<(Seq<char>, Seq<char>)> {
    seq![("action"@, "authenticate"@), ("status"@, "success"@)]
}

/// Sets the service up: there is nothing to set.
pub fn instantiate(_msg: InstantiateMsg) -> (response: Result<Response, ContractError>)
    ensures
        response matches Ok(r) && r@ == Seq::<(Seq<char>, Seq<char>)>::empty(),
{
    Ok(Response::new())
}

/// Registers `secret_key` for `sender`, in place of any secret it had.
pub fn try_register(store: &mut SecretStore, sender: &[u8], secret_key: String) -> (response:
    Result<Response, ContractError>)
    ensures
        final(store)@ == registration(old(store)@, sender@, secret_key@),
        response matches Ok(r) && r@ == register_attributes(),
{
    let user_info = UserInfo { secret_key };
    store.put(sender, user_info);
    let response = Response::new().add_attribute("action", "register");
    assert(response@ =~= register_attributes());
    Ok(response)
}

/// Checks the code that `sender` submits at the trusted time `now`
/// against the secret registered for it.
pub fn try_authenticate(store: &SecretStore, now: u64, sender: &[u8], totp_code: String) -> (response:
    Result<Response, ContractError>)
    ensures
        match response {
            Ok(r) => authentication(store@, sender@, totp_code@, now) == Ok::<(), ContractError>(
                (),
            ) && r@ == authenticate_attributes(),
            Err(e) => authentication(store@, sender@, totp_code@, now) == Err::<
                (),
                ContractError,
            >(e),
        },
{
    let user_info = match store.get(sender) {
        None => { return Err(ContractError::NotRegistered); },
        Some(info) => info,
    };
    let is_valid = match verify_totp(user_info.secret_key.as_str(), totp_code.as_str(), now) {
        Err(e) => { return Err(e); },
        Ok(valid) => valid,
    };
    if is_valid {
        let response = Response::new().add_attribute("action", "authenticate").add_attribute(
            "status",
            "success",
        );
        assert(response@ =~= authenticate_attributes());
        Ok(response)
    } else {
        Err(ContractError::InvalidCode)
    }
}

/// Routes a message of `sender`, received at the trusted time `now`.
pub fn execute(store: &mut SecretStore, now: u64, sender: &[u8], msg: ExecuteMsg) -> (response:
    Result<Response, ContractError>)
    ensures
        match msg {
            ExecuteMsg::Register { secret_key } => {
                &&& final(store)@ == registration(old(store)@, sender@, secret_key@)
                &&& response matches Ok(r) && r@ == register_attributes()
            },
            ExecuteMsg::Authenticate { totp_code } => {
                &&& final(store)@ == old(store)@
                &&& match response {
                    Ok(r) => authentication(old(store)@, sender@, totp_code@, now) == Ok::<
                        (),
                        ContractError,
                    >(()) && r@ == authenticate_attributes(),
                    Err(e) => authentication(old(store)@, sender@, totp_code@, now) == Err::<
                        (),
                        ContractError,
                    >(e),
                }
            },
        },
{
    match msg {
        ExecuteMsg::Register { secret_key } => try_register(store, sender, secret_key),
        ExecuteMsg::Authenticate { totp_code } => try_authenticate(store, now, sender, totp_code),
    }
}

/// Answers a query. No query message exists, so the answer is always empty.
pub fn query() -> (data: Result<Vec<u8>, ContractError>)
    ensures
        data matches Ok(bytes) && bytes@ == Seq::<u8>::empty(),
{
    Ok(Vec::new())
}

/// The table after a run of registrations, the earliest first, from an empty table.
pub open spec fn registrations(log: Seq<(Seq<u8>, Seq<char>)>) -> Map<Seq<u8>, Seq<char>>
    decreases log.len(),
{
    if log.len() == 0 {
        Map::empty()
    } else {
        registration(registrations(log.drop_last()), log.last().0, log.last().1)
    }
}

/// An identity that never registered is told so: whatever others have
/// registered and whatever code it submits, its attempt fails as not
/// registered, never as an invalid code.
pub proof fn lemma_unregistered_rejected(
    log: Seq<(Seq<u8>, Seq<char>)>,
    sender: Seq<u8>,
    code: Seq<char>,
    now: u64,
)
    requires
        forall|i: int| 0 <= i < log.len() ==> (#[trigger] log[i]).0 != sender,
    ensures
        !registrations(log).contains_key(sender),
        authentication(registrations(log), sender, code, now) == Err::<(), ContractError>(
            ContractError::NotRegistered,
        ),
    decreases log.len(),
{
    if log.len() > 0 {
        lemma_unregistered_rejected(log.drop_last(), sender, code, now);
        assert(log.last() == log[log.len() - 1]);
    }
}

/// Registering leaves every other identity's record as it was.
pub proof fn lemma_registration_is_local(
    records: Map<Seq<u8>, Seq<char>>,
    sender: Seq<u8>,
    secret_key: Seq<char>,
    other: Seq<u8>,
    code: Seq<char>,
    now: u64,
)
    requires
        other != sender,
    ensures
        authentication(registration(records, sender, secret_key), other, code, now)
            == authentication(records, other, code, now),
{
}

/// Of two registrations of one identity only the second counts: the table
/// is as if the first had not been, and an attempt is judged by the second
/// secret alone.
pub proof fn lemma_second_registration_wins(
    records: Map<Seq<u8>, Seq<char>>,
    sender: Seq<u8>,
    first: Seq<char>,
    second: Seq<char>,
    code: Seq<char>,
    now: u64,
)
    ensures
        registration(registration(records, sender, first), sender, second) == registration(
            records,
            sender,
            second,
        ),
        authentication(
            registration(registration(records, sender, first), sender, second),
            sender,
            code,
            now,
        ) == secret_outcome(second, code, now),
{
    assert(registration(registration(records, sender, first), sender, second) =~= registration(
        records,
        sender,
        second,
    ));
}

/// Once a Base32 secret is registered, the code of the step that `now`
/// falls in authenticates its owner at `now`.
pub proof fn lemma_round_trip(
    records: Map<Seq<u8>, Seq<char>>,
    sender: Seq<u8>,
    secret_key: Seq<char>,
    now: u64,
)
    requires
        is_base32_text(secret_key),
    ensures
        authentication(
            registration(records, sender, secret_key),
            sender,
            expected_code(base32_decoded(secret_key), time_counter(now)),
            now,
        ) == Ok::<(), ContractError>(()),
{
    lemma_current_code_accepted(base32_decoded(secret_key), now);
}

/// A registered secret with a character that is no Base32 symbol makes
/// every attempt of its owner fail on the encoding, whatever the code.
pub proof fn lemma_invalid_encoding(
    records: Map<Seq<u8>, Seq<char>>,
    sender: Seq<u8>,
    secret_key: Seq<char>,
    at: int,
    code: Seq<char>,
    now: u64,
)
    requires
        0 <= at < secret_key.len(),
        !is_base32_symbol(secret_key[at]),
    ensures
        authentication(registration(records, sender, secret_key), sender, code, now) == Err::<
            (),
            ContractError,
        >(ContractError::Encoding),
{
}

} // verus!
