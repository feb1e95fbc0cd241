pub mod sarif_reporter;
