pub mod pass;
