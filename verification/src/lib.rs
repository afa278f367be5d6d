pub mod accel;
pub mod buffer;
pub mod cast;
pub mod dense_arena;
pub mod gpu_types;
pub mod integrator;
pub mod rand;
pub mod sampler;
pub mod scene;
pub mod scene_graph;
