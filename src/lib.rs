//! Composable event streams: a `Sink` is the entry point of a chain of
//! stages that map, filter or buffer every value sent into it.
//!
//! The chain is kept as an arena of stage slots owned by the `Sink`. Each
//! stage knows the slot it listens to, and a liveness flag per slot plays
//! the part of a weak registration: each stage handle owns a token that its
//! slot only counts, and once the handle is dropped the next `send` vacates
//! the stage, so that it and everything listening to it receive nothing
//! more.

mod model;
mod sink;
mod stage;
mod laws;

pub use model::{
    Kind, StageView, pure_fn, pure_pred, image, passes, chain_wf, forwarded, opt_seq, after_send,
    after_sends, after_attach, after_prune, released, pull_at, pulled, after_pull, pulls, can_listen,
    attachable, lemma_send_keeps_wf, lemma_attach_keeps_wf, lemma_prune_keeps_wf,
    lemma_pull_keeps_wf,
};
pub use sink::Sink;
pub use stage::{Event, MapStage, Filter, Iter};
pub use laws::{
    collected, same_shape, lemma_forwarded_same_shape, lemma_sends_same_shape,
    law_pull_collects_in_order, lemma_pulls_take, lemma_image_is_result, lemma_passes_is_answer,
    law_sink_pull_fifo, law_map_then_pull, law_filter_then_pull, law_siblings_independent,
    downstream_of, law_dropped_receives_nothing, law_attach_keeps_deliveries,
    lemma_forwarded_root, lemma_forwarded_step, lemma_after_send_at, lemma_pure_fn_intro,
    lemma_pure_pred_intro, law_pull_touches_only_its_stage, law_all_held_prunes_nothing,
};
