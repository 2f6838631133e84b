//! Request and response types of the login exchange with the pet-care
//! monitoring service, with a builder for the request and their JSON text.
pub mod decode;
pub mod encode;
pub mod login;
pub mod round_trip;
