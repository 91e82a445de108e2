//! Timing statistics over alternating two-channel press intervals: a bounded
//! history of intervals, per-window statistics, sliding-window scans and the
//! best-of-window aggregation that reports are built from.

pub mod aggregate;
pub mod best;
pub mod input;
pub mod report;
pub mod ring;
pub mod scan;
pub mod stats;

pub use aggregate::{MetricKind, SummaryRow, best_rows};
pub use input::{Key, KeyAction, PressFilter};
pub use report::{
    ConvertError, HistoryRow, MonitorReport, ReportError, convert_deltas, history_rows,
    monitor_report, summary_rows,
};
pub use ring::Shared;
pub use scan::calc_stats_windows;
pub use stats::{Stats, StatsError, calc_stats};
