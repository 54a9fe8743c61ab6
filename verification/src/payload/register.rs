//! Register requests and responses.
use vstd::prelude::*;

use super::{take_payload, Payload, PayloadData, PayloadType, Request, Response};

verus! {

/// The response to a register request; for the client only.
pub struct RegisterResponse {
    pub payload: RegisterResponsePayload,
}

/// The payload of a register request; for the server only.
pub struct RegisterRequestPayload {
    pub payload: PayloadData,
}

/// The payload of a register response.
pub struct RegisterResponsePayload {
    pub payload: PayloadData,
}

impl Payload for RegisterRequestPayload {
    open spec fn kind(&self) -> PayloadType {
        PayloadType::Register
    }

    open spec fn contents(&self) -> PayloadData {
        self.payload
    }

    fn get_type(&self) -> (r: PayloadType) {
        PayloadType::Register
    }

    fn get_payload(&mut self) -> (r: PayloadData) {
        take_payload(&mut self.payload)
    }
}

impl Payload for RegisterResponsePayload {
    open spec fn kind(&self) -> PayloadType {
        PayloadType::Register
    }

    open spec fn contents(&self) -> PayloadData {
        self.payload
    }

    fn get_type(&self) -> (r: PayloadType) {
        PayloadType::Register
    }

    fn get_payload(&mut self) -> (r: PayloadData) {
        take_payload(&mut self.payload)
    }
}

/// A register request to the server.
pub struct RegisterRequest {
    pub payload: RegisterRequestPayload,
}

impl Response for RegisterResponse {
    open spec fn kind(&self) -> PayloadType {
        self.payload.kind()
    }

    open spec fn contents(&self) -> PayloadData {
        self.payload.contents()
    }

    fn get_payload(&mut self) -> (r: PayloadData) {
        self.payload.get_payload()
    }

    fn get_type(&self) -> (r: PayloadType) {
        self.payload.get_type()
    }
}

impl Request for RegisterRequest {
    open spec fn kind(&self) -> PayloadType {
        self.payload.kind()
    }

    open spec fn contents(&self) -> PayloadData {
        self.payload.contents()
    }

    fn get_payload(&mut self) -> (r: PayloadData) {
        self.payload.get_payload()
    }

    fn get_type(&self) -> (r: PayloadType) {
        self.payload.get_type()
    }
}

} // verus!
