pub mod spring_initializr;

pub use spring_initializr::SpringInitializrClient;
