//! The logic of an SRT benchmark.
//!
//! A benchmark run is one process in one role. A sweep runs many of them, cell by
//! cell; reports are made from the rows that they append to a result file.
//!
//! - Runs: [`cli`] and [`config`] read a command line; [`limiter`] lets callers
//!   connect a few at a time, in order; [`shared_sender`], [`deadlines`] and
//!   [`offering`] schedule the callers behind one socket; [`driver`] drives a single
//!   connection; [`stats`], [`outcome`] and [`row`] say what came of it.
//! - Sweeps: [`plan`] and [`matrix`] make the cells, [`schedule`] and [`sweep`] order
//!   them and find what is already done, [`attempt`], [`netem`] and [`sweep_run`] run
//!   them.
//! - Reports: [`results`] and [`record`] read result files; [`report`], [`medians`],
//!   [`series`], [`compare`] and [`scorecard`] summarise them; [`cell_identity`] proves
//!   what tells cells apart, and [`counts`] reads recorded counts.
//! - The capacity model: [`capacity_args`], [`model`], [`derivation`] and
//!   [`classifier`].
//! - Qualification: [`qual_payload`] and [`qual_evidence`].
//! - The host: [`host_contention`], [`cpu_stats`] and [`sysprof`].
//! - Texts: [`text`], [`text_map`] and [`json`].
//! - What the operations are for, as laws over all inputs: [`text_laws`], [`config_laws`],
//!   [`leg_laws`] and [`handshake_laws`] on command lines, connections and handshakes;
//!   [`sender_outcomes`], [`outcome_laws`], [`row_columns`] and [`recorded_settings`] on
//!   what a run says of itself; [`plan_laws`], [`matrix_laws`], [`sweep_laws`],
//!   [`link_settings`] and [`command_laws`] on sweeps and what they run; [`pair_sides`],
//!   [`report_laws`], [`scorecard_laws`] and [`rendering_laws`] on reports; [`envelope_laws`],
//!   [`config_model_laws`], [`derivation_laws`], [`model_laws`] and [`capacity_reasons`] on
//!   the capacity model;
//!   [`verdict_laws`] on what is said of predictions and hosts; [`qual_laws`] on
//!   qualifications.
//!
//! Fractions are not computed here. Where a rule depends on one, it takes the text of
//! the number, or the outcome of the comparison.

pub mod attempt;
pub mod capacity_args;
pub mod capacity_reasons;
pub mod cell_identity;
pub mod classifier;
pub mod cli;
pub mod command_laws;
pub mod compare;
pub mod config;
pub mod config_laws;
pub mod config_model_laws;
pub mod counts;
pub mod cpu_stats;
pub mod deadlines;
pub mod derivation;
pub mod derivation_laws;
pub mod driver;
pub mod envelope_laws;
pub mod handshake_laws;
pub mod host_contention;
pub mod json;
pub mod leg_laws;
pub mod limiter;
pub mod link_settings;
pub mod matrix;
pub mod matrix_laws;
pub mod medians;
pub mod model;
pub mod model_laws;
pub mod netem;
pub mod offering;
pub mod outcome;
pub mod outcome_laws;
pub mod pair_sides;
pub mod plan;
pub mod plan_laws;
pub mod qual_evidence;
pub mod qual_laws;
pub mod qual_payload;
pub mod record;
pub mod recorded_settings;
pub mod rendering_laws;
pub mod report;
pub mod report_laws;
pub mod results;
pub mod row;
pub mod row_columns;
pub mod schedule;
pub mod scorecard;
pub mod scorecard_laws;
pub mod sender_outcomes;
pub mod series;
pub mod shared_sender;
pub mod stats;
pub mod sweep;
pub mod sweep_laws;
pub mod sweep_run;
pub mod sysprof;
pub mod text;
pub mod text_laws;
pub mod text_map;
pub mod verdict_laws;
