//! Typed payloads of the account service: what a login or register request
//! carries and what its response carries back.
use vstd::prelude::*;

pub mod login;
pub mod register;

verus! {

/// The kind of a payload. Every payload has one.
pub enum PayloadType {
    /// Login payloads.
    Login,
    /// Register payloads.
    Register,
    /// Game payloads.
    Game,
    /// Note card payloads.
    Note,
}

/// The contents of a payload.
#[derive(Default)]
pub enum PayloadData {
    #[default]
    Empty,
    /// From clients only: (username, password, ip).
    LoginRequest(String, String, String),
    /// From the server only: an error or success message and an optional token.
    LoginResponse(String, Option<String>),
    /// From clients only: (username, password, ip).
    RegisterRequest(String, String, String),
    /// From the server only: an error or success message and an optional token.
    RegisterResponse(String, Option<String>),
}

impl PayloadData {
    /// The (username, password, ip) of a login request.
    pub fn grab_login_request_data(self) -> (r: Result<(String, String, String), ()>)
        ensures
            match self {
                PayloadData::LoginRequest(u, p, i) => r == Ok::<(String, String, String), ()>((u, p, i)),
                _ => r is Err,
            },
    {
        if let PayloadData::LoginRequest(username, password, ip) = self {
            Ok((username, password, ip))
        } else {
            Err(())
        }
    }

    /// The (message, token) of a login response.
    pub fn grab_login_response_data(self) -> (r: Result<(String, Option<String>), ()>)
        ensures
            match self {
                PayloadData::LoginResponse(m, t) => r == Ok::<(String, Option<String>), ()>((m, t)),
                _ => r is Err,
            },
    {
        if let PayloadData::LoginResponse(message, token) = self {
            Ok((message, token))
        } else {
            Err(())
        }
    }

    /// The (username, password, ip) of a register request.
    pub fn grab_register_request_data(self) -> (r: Result<(String, String, String), ()>)
        ensures
            match self {
                PayloadData::RegisterRequest(u, p, i) => r == Ok::<(String, String, String), ()>((u, p, i)),
                _ => r is Err,
            },
    {
        if let PayloadData::RegisterRequest(username, password, ip) = self {
            Ok((username, password, ip))
        } else {
            Err(())
        }
    }

    /// The (message, token) of a register response.
    pub fn grab_register_response_data(self) -> (r: Result<(String, Option<String>), ()>)
        ensures
            match self {
                PayloadData::RegisterResponse(m, t) => r == Ok::<(String, Option<String>), ()>((m, t)),
                _ => r is Err,
            },
    {
        if let PayloadData::RegisterResponse(message, token) = self {
            Ok((message, token))
        } else {
            Err(())
        }
    }
}

/// Takes the contents out of a payload slot, leaving `None` behind.
pub fn take_payload(slot: &mut PayloadData) -> (r: PayloadData)
    ensures
        r == *old(slot),
        *final(slot) == PayloadData::Empty,
{
    let mut out = PayloadData::Empty;
    std::mem::swap(slot, &mut out);
    out
}

/// A payload: it has a kind, and its contents can be taken out once.
pub trait Payload {
    /// The kind of the payload.
    spec fn kind(&self) -> PayloadType;

    /// The contents still in the payload.
    spec fn contents(&self) -> PayloadData;

    fn get_type(&self) -> (r: PayloadType)
        ensures
            r == self.kind();

    fn get_payload(&mut self) -> (r: PayloadData)
        ensures
            r == old(self).contents(),
            final(self).contents() == PayloadData::Empty,
            final(self).kind() == old(self).kind();
}

/// A request sent to the account service.
pub trait Request {
    /// The kind of the request.
    spec fn kind(&self) -> PayloadType;

    /// The contents still in the request.
    spec fn contents(&self) -> PayloadData;

    fn get_payload(&mut self) -> (r: PayloadData)
        ensures
            r == old(self).contents(),
            final(self).contents() == PayloadData::Empty,
            final(self).kind() == old(self).kind();

    fn get_type(&self) -> (r: PayloadType)
        ensures
            r == self.kind();
}

/// A response sent by the account service.
pub trait Response {
    /// The kind of the response.
    spec fn kind(&self) -> PayloadType;

    /// The contents still in the response.
    spec fn contents(&self) -> PayloadData;

    fn get_payload(&mut self) -> (r: PayloadData)
        ensures
            r == old(self).contents(),
            final(self).contents() == PayloadData::Empty,
            final(self).kind() == old(self).kind();

    fn get_type(&self) -> (r: PayloadType)
        ensures
            r == self.kind();
}

} // verus!
