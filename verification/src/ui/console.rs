//! How the console tells log lines apart, to colour them.
use vstd::prelude::*;

use crate::text::{chars_of, contains_chars, contains_seq};

verus! {

/// The kind of event a log line reports.
#[derive(Debug, Clone, Copy, PartialEq, Eq, Structural)]
pub enum LogKind {
    /// An error or a warning.
    Problem,
    /// A run started, finished or stopped.
    Lifecycle,
    Input,
    Output,
    Condition,
    /// A function call or a return from one.
    Call,
    Arithmetic,
    /// Joining or comparing texts.
    Text,
    Plain,
}

/// The kind of a log line, by the first of these groups of markers it holds.
pub open spec fn log_kind_of(l: Seq<char>) -> LogKind {
    if contains_seq(l, "[Hata]"@) || contains_seq(l, "[UYARI]"@) || contains_seq(l, "Error"@) {
        LogKind::Problem
    } else if contains_seq(l, "[Başlatıldı]"@) || contains_seq(l, "[Tamamlandı]"@) || contains_seq(
        l,
        "[Durduruldu]"@,
    ) {
        LogKind::Lifecycle
    } else if contains_seq(l, "[Giriş]"@) {
        LogKind::Input
    } else if contains_seq(l, "[Çıktı]"@) {
        LogKind::Output
    } else if contains_seq(l, "[KOŞUL]"@) {
        LogKind::Condition
    } else if contains_seq(l, "[FONKSİYON]"@) || contains_seq(l, "[ÇAĞRI]"@) || contains_seq(
        l,
        "[Geri Dönüldü]"@,
    ) {
        LogKind::Call
    } else if contains_seq(l, "[TOPLA]"@) || contains_seq(l, "[ÇIKAR]"@) || contains_seq(l, "[ÇARP]"@)
        || contains_seq(l, "[BÖL]"@) {
        LogKind::Arithmetic
    } else if contains_seq(l, "[BİRLEŞTİR]"@) || contains_seq(l, "[KARŞILAŞTIR]"@) {
        LogKind::Text
    } else {
        LogKind::Plain
    }
}

fn holds(l: &Vec<char>, marker: &str) -> (r: bool)
    ensures
        r == contains_seq(l@, marker@),
{
    contains_chars(l, &chars_of(marker))
}

/// The kind of the log line `line`, as `log_kind_of` describes.
pub fn log_kind(line: &str) -> (r: LogKind)
    ensures
        r == log_kind_of(line@),
{
    let l = chars_of(line);
    if holds(&l, "[Hata]") || holds(&l, "[UYARI]") || holds(&l, "Error") {
        LogKind::Problem
    } else if holds(&l, "[Başlatıldı]") || holds(&l, "[Tamamlandı]") || holds(&l, "[Durduruldu]") {
        LogKind::Lifecycle
    } else if holds(&l, "[Giriş]") {
        LogKind::Input
    } else if holds(&l, "[Çıktı]") {
        LogKind::Output
    } else if holds(&l, "[KOŞUL]") {
        LogKind::Condition
    } else if holds(&l, "[FONKSİYON]") || holds(&l, "[ÇAĞRI]") || holds(&l, "[Geri Dönüldü]") {
        LogKind::Call
    } else if holds(&l, "[TOPLA]") || holds(&l, "[ÇIKAR]") || holds(&l, "[ÇARP]") || holds(&l, "[BÖL]") {
        LogKind::Arithmetic
    } else if holds(&l, "[BİRLEŞTİR]") || holds(&l, "[KARŞILAŞTIR]") {
        LogKind::Text
    } else {
        LogKind::Plain
    }
}

} // verus!
