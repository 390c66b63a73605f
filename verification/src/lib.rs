//! A small ray-casting renderer over fixed-point integer coordinates: a
//! scene of spheres and planes is projected orthographically onto a view
//! plane, each pixel's color resolved from the nearest primitive its rays
//! hit, optionally averaged over sub-pixel samples for anti-aliasing.
//!
//! One world unit is `SCALE` fixed-point steps; every geometric contract is
//! stated exactly over the integers, with the hit-test epsilon equal to one
//! step.

mod fixed;
mod hitable;
mod material;
mod ray;
mod sampler;
mod tracer;
mod world;

pub use fixed::floor_div;
pub use fixed::isqrt;
pub use fixed::lemma_mul_bound;
pub use fixed::lemma_sqrt_floor_is;
pub use fixed::lemma_sqrt_floor_props;
pub use fixed::lemma_square_monotone;
pub use fixed::sqrt_floor;
pub use fixed::BOUND;
pub use fixed::SCALE;
pub use fixed::SQRT_DOMAIN;

pub use ray::lemma_dot_bound;
pub use ray::zero_point;
pub use ray::Point;
pub use ray::Ray;
pub use ray::Vec3;
pub use ray::T_LIMIT;

pub use material::Material;

pub use hitable::hit_matches;
pub use hitable::lemma_plane_parallel_misses;
pub use hitable::lemma_sphere_behind_misses;
pub use hitable::lemma_sphere_center_shot;
pub use hitable::HitRecord;
pub use hitable::Hitable;
pub use hitable::Plane;
pub use hitable::Primitive;
pub use hitable::Sphere;

pub use sampler::any_after_set;
pub use sampler::cell_offset;
pub use sampler::grid_size;
pub use sampler::grid_size_spec;
pub use sampler::jitter_entry;
pub use sampler::jitter_grid;
pub use sampler::lemma_cell_offset_range;
pub use sampler::lemma_same_shape_shape;
pub use sampler::lemma_same_shape_trans;
pub use sampler::random_cloud;
pub use sampler::random_entry;
pub use sampler::regular_grid;
pub use sampler::sample_shape;
pub use sampler::samples_near;
pub use sampler::AnySampler;
pub use sampler::JitterSampler;
pub use sampler::RandomSampler;
pub use sampler::RegularSampler;
pub use sampler::Sampler;
pub use sampler::SimpleSampler;

pub use tracer::cast_color;
pub use tracer::channel_spec;
pub use tracer::color_sum;
pub use tracer::color_to_u32;
pub use tracer::first_hit;
pub use tracer::lemma_color_sum_bounds;
pub use tracer::lemma_first_hit_some;
pub use tracer::lemma_nearest_hit_wins;
pub use tracer::lemma_order_swap;
pub use tracer::lemma_trace_deterministic;
pub use tracer::pack3;
pub use tracer::pixel_center_x;
pub use tracer::pixel_center_y;
pub use tracer::pixel_ok;
pub use tracer::pixel_value;
pub use tracer::sample_ray;
pub use tracer::Caster;
pub use tracer::Tracer;

pub use world::recreate_buffer;
pub use world::ViewPlane;
pub use world::World;
