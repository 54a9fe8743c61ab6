//! Login requests and responses.
use vstd::prelude::*;

use super::{take_payload, Payload, PayloadData, PayloadType, Request, Response};

verus! {

/// The response to a login request; for the client only.
pub struct LoginResponse {
    pub payload: LoginResponsePayload,
}

/// The payload of a login request; for the server only.
pub struct LoginRequestPayload {
    pub payload: PayloadData,
}

/// The payload of a login response.
pub struct LoginResponsePayload {
    pub payload: PayloadData,
}

impl Payload for LoginRequestPayload {
    open spec fn kind(&self) -> PayloadType {
        PayloadType::Login
    }

    open spec fn contents(&self) -> PayloadData {
        self.payload
    }

    fn get_type(&self) -> (r: PayloadType) {
        PayloadType::Login
    }

    fn get_payload(&mut self) -> (r: PayloadData) {
        take_payload(&mut self.payload)
    }
}

impl Payload for LoginResponsePayload {
    open spec fn kind(&self) -> PayloadType {
        PayloadType::Login
    }

    open spec fn contents(&self) -> PayloadData {
        self.payload
    }

    fn get_type(&self) -> (r: PayloadType) {
        PayloadType::Login
    }

    fn get_payload(&mut self) -> (r: PayloadData) {
        take_payload(&mut self.payload)
    }
}

/// A login request to the server.
pub struct LoginRequest {
    pub payload: LoginRequestPayload,
}

impl Response for LoginResponse {
    open spec fn kind(&self) -> PayloadType {
        self.payload.kind()
    }

    open spec fn contents(&self) -> PayloadData {
        self.payload.contents()
    }

    fn get_payload(&mut self) -> (r: PayloadData) {
        self.payload.get_payload()
    }

    fn get_type(&self) -> (r: PayloadType) {
        self.payload.get_type()
    }
}

impl Request for LoginRequest {
    open spec fn kind(&self) -> PayloadType {
        self.payload.kind()
    }

    open spec fn contents(&self) -> PayloadData {
        self.payload.contents()
    }

    fn get_payload(&mut self) -> (r: PayloadData) {
        self.payload.get_payload()
    }

    fn get_type(&self) -> (r: PayloadType) {
        self.payload.get_type()
    }
}

} // verus!
