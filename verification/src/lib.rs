pub mod text;
pub mod strmap;
pub mod node;
pub mod yaml;
pub mod engine;
pub mod inventory;
pub mod modules;
pub mod playbook;
pub mod testing;
