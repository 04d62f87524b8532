pub mod render_pipeline;
pub mod shader;
pub mod shader_effect;
pub mod texture_array;
