pub mod rope;
