pub mod api;
pub mod dijkstra;
pub mod local;
pub mod path_map;
pub mod relay;
pub mod routes;
