//! Protocol client core and schema-driven value engine for inspecting a
//! remote world over a JSON-RPC introspection protocol.
//!
//! The library holds what is decided and computed: the requests of the
//! protocol and the meaning of their replies, the entity as its components
//! describe it, the registry of types, and how a value of a type is shown
//! and edited. Sending a request and drawing a value are left to the
//! caller.

pub mod assoc;
pub mod bevy;
pub mod bevy_type;
pub mod client;
pub mod component;
pub mod component_value;
pub mod connection;
pub mod entity_item;
pub mod entity_kind;
pub mod error;
pub mod hierarchy;
pub mod icon;
pub mod inspector;
pub mod json;
pub mod json_text;
pub mod json_value;
pub mod map_value;
pub mod paths;
pub mod rpc;
pub mod schema;
pub mod states;
pub mod text;
pub mod text_map;
pub mod types_tool;
pub mod utils;
pub mod wrapper_chain;

pub use client::{MutateData, Reply};
pub use connection::ConnectionState;
pub use entity_item::{EntityItem, GetComponentsResponse, QueryRow};
pub use entity_kind::EntityKind;
pub use error::{BrpError, ClientError};
pub use icon::Icon;
pub use json::Json;
pub use json_text::value_to_string;
pub use map_value::map_value;
pub use paths::{get_array_path, get_object_path};
pub use rpc::{BrpClient, BrpResponse, Request};
pub use schema::{get_type_path_from_ref_value, Schema, SchemaDescriptor, SchemaKind, SchemaType};
pub use states::{EntitiesToolState, InspectorState, ResourcesToolState, TypesToolState};
pub use utils::{add_zero_width_spaces, get_short_type_name};
