//! Client library for the Pickpoint geolocation platform.

pub mod address;
pub mod auth;
pub mod batch;
pub mod client;
pub mod clock;
pub mod config;
pub mod devices;
pub mod encoding;
pub mod error;
pub mod geocoding;
pub mod json;
pub mod mint;
pub mod query;
pub mod random;
pub mod routing;
pub mod text;
pub mod tracking;
pub mod transport;

pub use address::AddressApi;
pub use client::Client;
pub use config::{
    ClientAuth, Config, DEFAULT_BASE_URL, DEFAULT_CONCURRENCY, DEFAULT_MAX_RETRIES,
    DEFAULT_RETRY_BASE, DEFAULT_TIMEOUT, MAX_CONCURRENCY, MIN_RETRY_BASE,
};
pub use devices::{
    Device, DeviceCommandResult, DeviceInput, DeviceListQuery, DeviceListResult, DevicesApi,
};
pub use error::{ApiError, AuthError, ConflictError, Error, InvalidConfigError, NotFoundError};
pub use geocoding::GeocodingApi;
pub use mint::{mint_client_tokens, TokenPair};
pub use query::{query, Query};
pub use routing::RoutingApi;
