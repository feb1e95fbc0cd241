pub mod vibediff_config;
