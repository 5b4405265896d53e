//! QUIC transport: configuration and the shape of connections. No endpoint is
//! attached, so nothing is received.

use vstd::prelude::*;

use crate::error::{ErrorView, FluxError};

verus! {

/// Parameters of the transport.
#[derive(Debug)]
pub struct QuicConfig {
    /// Address to bind, with a port.
    pub bind_addr: String,
    pub idle_timeout_secs: u64,
    pub enable_datagrams: bool,
    pub max_datagram_size: usize,
    pub keep_alive_secs: u64,
}

impl Default for QuicConfig {
    /// Any address and port, datagrams of 1350 bytes.
    fn default() -> (config: Self)
        ensures
            config.bind_addr@ == "0.0.0.0:0"@,
            config.idle_timeout_secs == 30,
            config.enable_datagrams,
            config.max_datagram_size == 1350,
            config.keep_alive_secs == 5,
    {
        QuicConfig {
            bind_addr: "0.0.0.0:0".to_string(),
            idle_timeout_secs: 30,
            enable_datagrams: true,
            max_datagram_size: 1350,
            keep_alive_secs: 5,
        }
    }
}

/// The host side of the transport.
#[derive(Debug)]
pub struct QuicServer {
    config: QuicConfig,
}

impl QuicServer {
    /// What the server was made with.
    pub closed spec fn made_with(self) -> QuicConfig {
        self.config
    }

    /// A server.
    pub fn bind(config: QuicConfig) -> (result: Result<Self, FluxError>)
        ensures
            result matches Ok(server) && server.made_with() == config,
    {
        Ok(QuicServer { config })
    }

    /// Accepts a connection; none comes.
    pub fn accept(&self) -> (result: Result<QuicConnection, FluxError>)
        ensures
            result matches Err(e) && e@ == ErrorView::Network("QUIC accept not yet implemented"@),
    {
        Err(FluxError::Network("QUIC accept not yet implemented".to_string()))
    }
}

/// The client side of the transport.
#[derive(Debug)]
pub struct QuicClient {
    config: QuicConfig,
}

impl QuicClient {
    /// What the client was made with.
    pub closed spec fn made_with(self) -> QuicConfig {
        self.config
    }

    /// A client.
    pub fn new(config: QuicConfig) -> (result: Result<Self, FluxError>)
        ensures
            result matches Ok(client) && client.made_with() == config,
    {
        Ok(QuicClient { config })
    }

    /// Connects to a host; none is reached.
    pub fn connect(&self, _server_addr: &str, _server_name: &str) -> (result: Result<
        QuicConnection,
        FluxError,
    >)
        ensures
            result matches Err(e) && e@ == ErrorView::Network("QUIC connect not yet implemented"@),
    {
        Err(FluxError::Network("QUIC connect not yet implemented".to_string()))
    }
}

/// A connection.
#[derive(Debug)]
pub struct QuicConnection {
    _private: (),
}

impl QuicConnection {
    /// Opens a stream; there is none.
    pub fn open_stream(&self) -> (result: Result<QuicStream, FluxError>)
        ensures
            result matches Err(e) && e@ == ErrorView::Network("open_stream not yet implemented"@),
    {
        Err(FluxError::Network("open_stream not yet implemented".to_string()))
    }

    /// Accepts a stream; none comes.
    pub fn accept_stream(&self) -> (result: Result<QuicStream, FluxError>)
        ensures
            result matches Err(e) && e@ == ErrorView::Network("accept_stream not yet implemented"@),
    {
        Err(FluxError::Network("accept_stream not yet implemented".to_string()))
    }

    /// Sends a datagram, which may be lost.
    pub fn send_datagram(&self, _data: &[u8]) -> (result: Result<(), FluxError>)
        ensures
            result is Ok,
    {
        Ok(())
    }

    /// Receives a datagram; none comes.
    pub fn recv_datagram(&self) -> (result: Result<Vec<u8>, FluxError>)
        ensures
            result matches Err(e) && e@ == ErrorView::Network("recv_datagram not yet implemented"@),
    {
        Err(FluxError::Network("recv_datagram not yet implemented".to_string()))
    }

    /// The address of the peer: none.
    pub fn remote_addr(&self) -> (address: &'static str)
        ensures
            address@ == "0.0.0.0:0"@,
    {
        "0.0.0.0:0"
    }

    /// Closes the connection.
    pub fn close(&self, _reason: &str) {
    }
}

/// A stream.
#[derive(Debug)]
pub struct QuicStream {
    _private: (),
}

impl QuicStream {
    /// Writes bytes.
    pub fn write(&mut self, _data: &[u8]) -> (result: Result<(), FluxError>)
        ensures
            result is Ok,
            *final(self) == *old(self),
    {
        Ok(())
    }

    /// Reads bytes; none come.
    pub fn read(&mut self, _buf: &mut [u8]) -> (result: Result<usize, FluxError>)
        ensures
            result matches Ok(count) && count == 0,
            *final(self) == *old(self),
            final(_buf)@ == old(_buf)@,
    {
        Ok(0)
    }

    /// Ends the writing.
    pub fn finish(&mut self) -> (result: Result<(), FluxError>)
        ensures
            result is Ok,
            *final(self) == *old(self),
    {
        Ok(())
    }
}

} // verus!
