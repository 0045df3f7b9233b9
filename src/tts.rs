pub mod bundle;
pub mod cache;
pub mod events;
pub mod locate;
pub mod split;
pub mod synth;
pub mod timing;
pub mod wav;
