//! Request routing, load balancing and route storage for a reverse proxy
//! whose routing table is pushed to it by a controller.

pub mod api;
mod shared_map;
pub mod text;
pub mod store;
pub mod weights;
pub mod scoring;
pub mod router;
pub mod upstream;
pub mod gateway;
pub mod health;
pub mod routing_service;
