pub mod sbmeter;
