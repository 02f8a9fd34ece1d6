pub mod foundry;
