pub mod text;
pub mod regex_search;
pub mod models;
pub mod order;
pub mod strmap;
pub mod commands;
pub mod parser;
pub mod xml;
