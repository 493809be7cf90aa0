//! Wire message vocabulary of the client protocol.
//!
//! These are the payloads that cross the TCP boundary; the transport framing
//! and the JSON encoding live outside the core, which only decides what each
//! message means.

use vstd::prelude::*;

verus! {

/// A request from a client to any node of the cluster.
#[derive(Debug, Clone)]
pub enum ClientRequest {
    /// Upload an image; the response carries the encrypted image data.
    UploadImage { username: String, image_data: Vec<u8>, filename: String },
}

/// A node's response to a client request.
#[derive(Debug, Clone)]
pub enum ServerResponse {
    /// The encrypted image data.
    EncryptedImageData { data: Vec<u8> },
    Error { message: String },
}

/// Messages between nodes outside the election protocol.
#[derive(Debug, Clone)]
pub enum InternalMessage {
    /// Request from leader to worker to process an image.
    ProcessImage { username: String, image_data: Vec<u8>, filename: String },
    /// Response from worker to leader.
    ProcessingComplete { success: bool, message: String },
    /// Retrieve an image from a worker.
    RetrieveImage { username: String, filename: String },
    /// Image retrieval response.
    ImageData { data: Vec<u8> },
    /// Health check.
    Ping,
    /// Health check response.
    Pong,
}

} // verus!
