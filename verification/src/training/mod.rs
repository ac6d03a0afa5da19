pub mod trainer;
