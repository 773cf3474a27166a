pub mod class_analyzer;
pub mod java_locator;
pub mod spring_controller_index;
pub mod typedef_parser;
pub mod xfdl_parser;
