//! A procedural tile-map generator built on wave-function collapse: unique
//! 3x3 tiles are extracted from a sample grid, geometric adjacency rules are
//! derived from their shared edge strips, and a constraint-propagation engine
//! grows an output grid that locally resembles the sample. The surrounding
//! game pieces it feeds - buffers, components, a generational-index store,
//! influence maps and a cellular-automaton cave generator - live here too.

pub mod buffer;
pub mod generations;
pub mod dijkstra_maps;
pub mod enemy_ai;
pub mod cave;
pub mod components;
pub mod randomness;
pub mod collapse;
pub mod adjacency;
pub mod tiles;
