pub mod adv;
