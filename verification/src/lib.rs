pub mod db;
pub mod idmap;
pub mod laws;
pub mod models;
pub mod navigator;
pub mod pages;
pub mod persist;
pub mod textutil;
