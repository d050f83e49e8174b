//! The record parser: stream selection, the container demultiplexer, the
//! configuration and data grammars, and timestamp reconstruction.
use vstd::prelude::*;

pub mod cff;
pub mod cfg;
pub mod dat;
pub mod time;

use crate::error::ComtradeError;
use crate::parser::cfg::analog_channels::{analog_config_matches, AnalogChannel};
use crate::parser::cfg::status_channel::StatusChannel;
use crate::parser::cfg::{
    cfg_accepted, cfg_adder_of, cfg_base_unit_of, cfg_crit_of, cfg_format_of, cfg_mf_of,
    cfg_mult_of, cfg_na, cfg_nano_of, cfg_nrates, cfg_ns, cfg_rates_of, cfg_revision,
    cfg_stamp_start, cfg_total_of, lemma_cfg_determines, offset_bound, spec_tokens,
    status_row_matches, CfgData,
};
use crate::parser::dat::formats::DataFormat;
use crate::parser::dat::{
    ascii_row_shape_ok, ascii_row_ts, bin_raw, bin_record_ok_at, bin_ts, bin_count, bin_len_ok,
    f32_finite_at, le_u32, nonblank_lines, record_size, scale_fits, scaled, time_ok,
    time_value_matches, DatData,
};
use crate::parser::cff::spec_demux;
use crate::rational::{rat_of_token, Rational};
use crate::text::{chars_of_lossy, spec_split, uint_token_val, NEWLINE};
use crate::Comtrade;

verus! {

pub type ParseResult<T> = Result<T, ParseError>;

/// A lower-level decode error with a human-readable message.
#[derive(Debug, Clone, PartialEq)]
pub struct ParseError {
    pub message: String,
}

impl ParseError {
    pub fn new(message: String) -> (r: Self)
        ensures
            r.message == message,
    {
        ParseError { message }
    }
}



// ---------------------------------------------------------------------------
// What the whole pipeline accepts, as a function of the raw inputs
// ---------------------------------------------------------------------------

/// One text data row decodes under the configuration text: right shape,
/// every channel's scaling fits, and its time can be reconstructed.
pub open spec fn ascii_row_ok_for(lines: Seq<Seq<u8>>, row: Seq<u8>) -> bool {
    let toks = spec_tokens(row);
    let na = cfg_na(lines);
    &&& ascii_row_shape_ok(toks, na, cfg_ns(lines))
    &&& (forall|j: int|
        0 <= j < na ==> scale_fits(
            rat_of_token(#[trigger] toks[2 + j]),
            cfg_mult_of(lines, j),
            cfg_adder_of(lines, j),
        ))
    &&& time_ok(
        uint_token_val(toks[0]) as u32,
        ascii_row_ts(toks),
        cfg_rates_of(lines),
        cfg_crit_of(lines),
        cfg_base_unit_of(lines),
        cfg_mf_of(lines),
    )
}

/// Every non-blank text row decodes under the configuration text.
pub open spec fn ascii_dat_ok(cfg: Seq<u8>, dat: Seq<u8>) -> bool {
    let lines = spec_split(cfg, NEWLINE);
    forall|i: int|
        0 <= i < nonblank_lines(dat).len() ==> #[trigger] ascii_row_ok_for(
            lines,
            nonblank_lines(dat)[i],
        )
}

/// One binary record decodes under the configuration text.
pub open spec fn bin_record_ok_for(lines: Seq<Seq<u8>>, dat: Seq<u8>, i: int) -> bool {
    let fmt = cfg_format_of(lines);
    let na = cfg_na(lines);
    let base = i * record_size(fmt, na, cfg_ns(lines));
    &&& (forall|j: int| 0 <= j < na ==> (fmt is Float32 ==> #[trigger] f32_finite_at(dat, base, j)))
    &&& (forall|j: int|
        0 <= j < na ==> scale_fits(
            #[trigger] bin_raw(dat, base, fmt, j),
            cfg_mult_of(lines, j),
            cfg_adder_of(lines, j),
        ))
    &&& time_ok(
        le_u32(dat, base) as u32,
        bin_ts(dat, base),
        cfg_rates_of(lines),
        cfg_crit_of(lines),
        cfg_base_unit_of(lines),
        cfg_mf_of(lines),
    )
}

/// The binary data tiles into records and every record decodes.
pub open spec fn bin_dat_ok(cfg: Seq<u8>, dat: Seq<u8>) -> bool {
    let lines = spec_split(cfg, NEWLINE);
    let rsize = record_size(cfg_format_of(lines), cfg_na(lines), cfg_ns(lines));
    let count = bin_count(dat.len() as int, cfg_crit_of(lines), cfg_total_of(lines), rsize);
    &&& bin_len_ok(dat.len() as int, cfg_crit_of(lines), cfg_total_of(lines), rsize)
    &&& (forall|i: int| 0 <= i < count ==> #[trigger] bin_record_ok_for(lines, dat, i))
}

/// The data buffer decodes in the mode the configuration selects.
pub open spec fn dat_accepted(cfg: Seq<u8>, dat: Seq<u8>) -> bool {
    if cfg_format_of(spec_split(cfg, NEWLINE)) is Ascii {
        ascii_dat_ok(cfg, dat)
    } else {
        bin_dat_ok(cfg, dat)
    }
}

/// A configuration buffer and a data buffer decode into a record.
pub open spec fn decode_accepted(cfg: Seq<u8>, dat: Seq<u8>) -> bool {
    cfg_accepted(cfg) && dat_accepted(cfg, dat)
}

/// What the whole parse accepts: with a container, the demultiplexer must
/// place every line and the split-out buffers must decode; with separate
/// streams, both must be present and decode.
pub open spec fn parse_accepted(p: ComtradeParser) -> bool {
    match p.cff_file {
        Some(cff) => {
            let d = spec_demux(
                spec_split(cff@, NEWLINE),
                0,
                None,
                None,
                None,
                None,
                None,
                None,
                None,
            );
            d is Some && ({
                let out = d->0;
                decode_accepted(out.0, out.1)
            })
        },
        None => p.cfg_file is Some && p.dat_file is Some && decode_accepted(
            (p.cfg_file->0)@,
            (p.dat_file->0)@,
        ),
    }
}

/// The prerequisites under which a parsed configuration's decoder inputs
/// coincide with the text's.
pub open spec fn cfg_decodes_as(c: CfgData, cfg: Seq<u8>, base: Rational) -> bool {
    &&& c.wf()
    &&& c.revision_gated()
    &&& c.cfg_bound(cfg)
    &&& base == cfg_base_unit_of(spec_split(cfg, NEWLINE))
}

/// A text row decodes against the parsed configuration exactly when it
/// decodes against the configuration text.
proof fn lemma_ascii_row_equiv(cfg: Seq<u8>, row: Seq<u8>, c: CfgData, base: Rational)
    requires
        cfg_decodes_as(c, cfg, base),
    ensures
        ascii_row_ok_for(spec_split(cfg, NEWLINE), row) == crate::parser::dat::ascii_row_ok(
            row,
            c.analog_configs@,
            c.num_status_channels as int,
            c.sampling_rates@,
            c.is_timestamp_critical,
            base,
            c.timestamp_multiplication_factor,
        ),
{
    let lines = spec_split(cfg, NEWLINE);
    lemma_cfg_determines(cfg, c);
    let toks = spec_tokens(row);
    let na = cfg_na(lines);
    assert forall|j: int| 0 <= j < na implies scale_fits(
        rat_of_token(#[trigger] toks[2 + j]),
        cfg_mult_of(lines, j),
        cfg_adder_of(lines, j),
    ) == scale_fits(
        rat_of_token(toks[2 + j]),
        c.analog_configs@[j].multiplier,
        c.analog_configs@[j].offset_adder,
    ) by {
        assert(c.analog_configs@[j].multiplier == cfg_mult_of(lines, j));
    }
}

/// A binary record decodes against the parsed configuration exactly when
/// it decodes against the configuration text.
proof fn lemma_bin_record_equiv(cfg: Seq<u8>, dat: Seq<u8>, i: int, c: CfgData, base: Rational)
    requires
        cfg_decodes_as(c, cfg, base),
    ensures
        ({
            let lines = spec_split(cfg, NEWLINE);
            let rsize = record_size(cfg_format_of(lines), cfg_na(lines), cfg_ns(lines));
            bin_record_ok_for(lines, dat, i) == bin_record_ok_at(
                dat,
                i,
                rsize,
                c.data_format,
                c.analog_configs@,
                c.sampling_rates@,
                c.is_timestamp_critical,
                base,
                c.timestamp_multiplication_factor,
            )
        }),
{
    let lines = spec_split(cfg, NEWLINE);
    lemma_cfg_determines(cfg, c);
    let fmt = cfg_format_of(lines);
    let na = cfg_na(lines);
    let rsize = record_size(fmt, na, cfg_ns(lines));
    let base_off = i * rsize;
    assert forall|j: int| 0 <= j < na implies scale_fits(
        #[trigger] bin_raw(dat, base_off, fmt, j),
        cfg_mult_of(lines, j),
        cfg_adder_of(lines, j),
    ) == scale_fits(
        bin_raw(dat, base_off, fmt, j),
        c.analog_configs@[j].multiplier,
        c.analog_configs@[j].offset_adder,
    ) by {
        assert(c.analog_configs@[j].multiplier == cfg_mult_of(lines, j));
    }
}


/// The field bindings of a decoded record: each metadata field equals what
/// its configuration line writes.
pub open spec fn record_fields_bound(rec: Comtrade, cfg: Seq<u8>) -> bool {
    let lines = spec_split(cfg, NEWLINE);
    let t0 = spec_tokens(lines[0]);
    let na = cfg_na(lines);
    let ns = cfg_ns(lines);
    let ts = cfg_stamp_start(lines);
    &&& rec.station_name@ == chars_of_lossy(t0[0])
    &&& rec.recording_device_id@ == chars_of_lossy(t0[1])
    &&& rec.revision == cfg_revision(lines)
    &&& rec.line_frequency == rat_of_token(spec_tokens(lines[2 + na + ns])[0])
    &&& rec.sampling_rates@ == cfg_rates_of(lines)
    &&& rec.data_format == cfg_format_of(lines)
    &&& rec.timestamp_multiplication_factor == cfg_mf_of(lines)
    &&& (forall|j: int|
        0 <= j < na ==> analog_config_matches(
            (#[trigger] rec.analog_channels@[j]).config,
            spec_tokens(lines[2 + j]),
            0,
        ))
    &&& (forall|j: int|
        0 <= j < ns ==> status_row_matches(
            (#[trigger] rec.status_channels@[j]).config,
            spec_tokens(lines[2 + na + j]),
        ))
    &&& stamp_fields_bound(cfg_revision(lines), lines, ts, rec.start_time)
    &&& stamp_fields_bound(cfg_revision(lines), lines, ts + 1, rec.trigger_time)
    &&& (rec.revision is Revision2013 ==> {
        let off = spec_tokens(lines[ts + 4]);
        let q = spec_tokens(lines[ts + 5]);
        &&& offset_bound(rec.time_offset, off[0])
        &&& offset_bound(rec.local_offset, off[1])
        &&& rec.time_quality is Some && Some(rec.time_quality->0) == crate::time_quality_of(q[0])
        &&& rec.leap_second_status is Some && Some(rec.leap_second_status->0)
            == crate::leap_second_status_of(q[1])
    })
}

/// The stamp at line `li` is exactly what `dt` holds.
pub open spec fn stamp_fields_bound(
    rev: crate::parser::cfg::revisions::FormatRevision,
    lines: Seq<Seq<u8>>,
    li: int,
    dt: crate::parser::cfg::date_time::DateTime,
) -> bool {
    let toks = spec_tokens(lines[li]);
    let tt = toks[1];
    &&& rev.date_matches(toks[0], dt.date)
    &&& dt.time.hour == crate::text::digits_val(crate::parser::cfg::date_time::time_parts(tt)[0])
    &&& dt.time.minute == crate::text::digits_val(crate::parser::cfg::date_time::time_parts(tt)[1])
    &&& dt.time.second == crate::text::digits_val(crate::parser::cfg::date_time::sec_parts(tt)[0])
    &&& dt.time.nanosecond == crate::parser::cfg::date_time::time_nanos(tt)
}

/// Sample row `i` of the record holds exactly what text row `i` decodes to.
pub open spec fn ascii_row_bound(rec: Comtrade, lines: Seq<Seq<u8>>, dat: Seq<u8>, i: int) -> bool {
    let toks = spec_tokens(nonblank_lines(dat)[i]);
    let na = cfg_na(lines);
    &&& rec.sample_numbers@[i] == uint_token_val(toks[0])
    &&& time_value_matches(
        rec.timestamps@[i],
        uint_token_val(toks[0]) as u32,
        ascii_row_ts(toks),
        cfg_rates_of(lines),
        cfg_crit_of(lines),
        cfg_base_unit_of(lines),
        cfg_mf_of(lines),
    )
    &&& (forall|j: int|
        0 <= j < na ==> (#[trigger] rec.analog_channels@[j]).data@[i] == scaled(
            rat_of_token(spec_tokens(nonblank_lines(dat)[i])[2 + j]),
            cfg_mult_of(lines, j),
            cfg_adder_of(lines, j),
        ))
    &&& (forall|j: int|
        0 <= j < cfg_ns(lines) ==> (#[trigger] rec.status_channels@[j]).data@[i]
            == uint_token_val(spec_tokens(nonblank_lines(dat)[i])[2 + na + j]))
}

/// Sample row `i` of the record holds exactly what binary record `i`
/// decodes to.
pub open spec fn bin_row_bound(rec: Comtrade, lines: Seq<Seq<u8>>, dat: Seq<u8>, i: int) -> bool {
    let fmt = cfg_format_of(lines);
    let na = cfg_na(lines);
    let base = i * record_size(fmt, na, cfg_ns(lines));
    &&& rec.sample_numbers@[i] == le_u32(dat, base)
    &&& time_value_matches(
        rec.timestamps@[i],
        le_u32(dat, base) as u32,
        bin_ts(dat, base),
        cfg_rates_of(lines),
        cfg_crit_of(lines),
        cfg_base_unit_of(lines),
        cfg_mf_of(lines),
    )
    &&& (forall|j: int|
        0 <= j < na ==> (#[trigger] rec.analog_channels@[j]).data@[i] == scaled(
            bin_raw(dat, base, fmt, j),
            cfg_mult_of(lines, j),
            cfg_adder_of(lines, j),
        ))
    &&& (forall|j: int|
        0 <= j < cfg_ns(lines) ==> (#[trigger] rec.status_channels@[j]).data@[i]
            == crate::parser::dat::bin_status_val(dat, base, fmt, na, j))
}

/// The record's samples are bound to the data buffer, row by row, in the
/// mode the configuration selects.
pub open spec fn record_rows_bound(rec: Comtrade, cfg: Seq<u8>, dat: Seq<u8>) -> bool {
    let lines = spec_split(cfg, NEWLINE);
    &&& rec.analog_channels@.len() == cfg_na(lines)
    &&& rec.status_channels@.len() == cfg_ns(lines)
    &&& if cfg_format_of(lines) is Ascii {
        let rows = nonblank_lines(dat);
        &&& rec.sample_numbers@.len() == rows.len()
        &&& rec.timestamps@.len() == rows.len()
        &&& (forall|i: int| 0 <= i < rows.len() ==> #[trigger] ascii_row_bound(rec, lines, dat, i))
    } else {
        let count = bin_count(
            dat.len() as int,
            cfg_crit_of(lines),
            cfg_total_of(lines),
            record_size(cfg_format_of(lines), cfg_na(lines), cfg_ns(lines)),
        );
        &&& rec.sample_numbers@.len() == count
        &&& rec.timestamps@.len() == count
        &&& (forall|i: int| 0 <= i < count ==> #[trigger] bin_row_bound(rec, lines, dat, i))
    }
}

/// The record is completely bound to its inputs.
pub open spec fn record_bound(rec: Comtrade, cfg: Seq<u8>, dat: Seq<u8>) -> bool {
    record_fields_bound(rec, cfg) && record_rows_bound(rec, cfg, dat)
}


/// The decoder's output matches the parsed configuration, row by row.
pub open spec fn decoder_output_matches(
    c: CfgData,
    d: DatData,
    dat: Seq<u8>,
    base: Rational,
) -> bool {
    if c.data_format is Ascii {
        let rows = nonblank_lines(dat);
        &&& d.sample_numbers@.len() == rows.len()
        &&& d.timestamps@.len() == rows.len()
        &&& d.analog_rows@.len() == rows.len()
        &&& d.status_rows@.len() == rows.len()
        &&& (forall|i: int|
            0 <= i < rows.len() ==> #[trigger] crate::parser::dat::ascii_row_matches(
                d,
                i,
                rows[i],
                c.analog_configs@,
                c.num_status_channels as int,
                c.sampling_rates@,
                c.is_timestamp_critical,
                base,
                c.timestamp_multiplication_factor,
            ))
    } else {
        let rsize = record_size(
            c.data_format,
            c.analog_configs@.len() as int,
            c.num_status_channels as int,
        );
        let count = bin_count(
            dat.len() as int,
            c.is_timestamp_critical,
            c.total_num_samples as int,
            rsize,
        );
        &&& d.sample_numbers@.len() == count
        &&& d.timestamps@.len() == count
        &&& d.analog_rows@.len() == count
        &&& d.status_rows@.len() == count
        &&& (forall|i: int|
            0 <= i < count ==> #[trigger] crate::parser::dat::bin_record_matches_at(
                d,
                i,
                dat,
                rsize,
                c.data_format,
                c.analog_configs@,
                c.num_status_channels as int,
                c.sampling_rates@,
                c.is_timestamp_critical,
                base,
                c.timestamp_multiplication_factor,
            ))
    }
}

/// A record assembled from a bound configuration and a matching decoder
/// output is itself bound to the input bytes.
#[verifier::rlimit(100)]
#[verifier::spinoff_prover]
proof fn lemma_record_is_bound(
    rec: Comtrade,
    cfg: Seq<u8>,
    dat: Seq<u8>,
    c: CfgData,
    d: DatData,
    base: Rational,
)
    requires
        cfg_decodes_as(c, cfg, base),
        decoder_output_matches(c, d, dat, base),
        rec.station_name == c.station_name,
        rec.recording_device_id == c.recording_device_id,
        rec.revision == c.revision,
        rec.sample_numbers == d.sample_numbers,
        rec.timestamps == d.timestamps,
        rec.line_frequency == c.line_frequency,
        rec.sampling_rates == c.sampling_rates,
        rec.start_time == c.start_time.date_time,
        rec.trigger_time == c.trigger_time.date_time,
        rec.data_format == c.data_format,
        rec.timestamp_multiplication_factor == c.timestamp_multiplication_factor,
        rec.time_offset == c.time_offset,
        rec.local_offset == c.local_offset,
        rec.time_quality == c.time_quality,
        rec.leap_second_status == c.leap_second_status,
        rec.analog_channels@.len() == c.analog_configs@.len(),
        rec.status_channels@.len() == c.status_configs@.len(),
        c.status_configs@.len() == c.num_status_channels,
        forall|k: int|
            0 <= k < rec.analog_channels@.len() ==> (#[trigger] rec.analog_channels@[k]).config
                == c.analog_configs@[k],
        forall|k: int|
            0 <= k < rec.status_channels@.len() ==> (#[trigger] rec.status_channels@[k]).config
                == c.status_configs@[k],
        forall|k: int|
            0 <= k < rec.analog_channels@.len() ==> (#[trigger] rec.analog_channels@[k]).data@.len()
                == d.sample_numbers@.len(),
        forall|k: int|
            0 <= k < rec.status_channels@.len() ==> (#[trigger] rec.status_channels@[k]).data@.len()
                == d.sample_numbers@.len(),
        forall|k: int, i: int|
            0 <= k < rec.analog_channels@.len() && 0 <= i < d.sample_numbers@.len() ==> (
            #[trigger] rec.analog_channels@[k].data@[i]) == d.analog_rows@[i]@[k],
        forall|k: int, i: int|
            0 <= k < rec.status_channels@.len() && 0 <= i < d.sample_numbers@.len() ==> (
            #[trigger] rec.status_channels@[k].data@[i]) == d.status_rows@[i]@[k],
    ensures
        record_bound(rec, cfg, dat),
{
    let lines = spec_split(cfg, NEWLINE);
    lemma_cfg_determines(cfg, c);
    let na = cfg_na(lines);
    let ns = cfg_ns(lines);

    // Field bindings follow from the configuration's own bindings.
    assert(stamp_fields_bound(cfg_revision(lines), lines, cfg_stamp_start(lines), rec.start_time));
    assert(stamp_fields_bound(
        cfg_revision(lines),
        lines,
        cfg_stamp_start(lines) + 1,
        rec.trigger_time,
    ));
    assert forall|j: int| 0 <= j < na implies analog_config_matches(
        (#[trigger] rec.analog_channels@[j]).config,
        spec_tokens(lines[2 + j]),
        0,
    ) by {
        assert(rec.analog_channels@[j].config == c.analog_configs@[j]);
    }
    assert forall|j: int| 0 <= j < ns implies status_row_matches(
        (#[trigger] rec.status_channels@[j]).config,
        spec_tokens(lines[2 + na + j]),
    ) by {
        assert(rec.status_channels@[j].config == c.status_configs@[j]);
    }
    assert(record_fields_bound(rec, cfg));

    // Row bindings follow from the decoder's per-row matches.
    if c.data_format is Ascii {
        let rows = nonblank_lines(dat);
        assert forall|i: int| 0 <= i < rows.len() implies #[trigger] ascii_row_bound(
            rec,
            lines,
            dat,
            i,
        ) by {
            assert(crate::parser::dat::ascii_row_matches(
                d,
                i,
                rows[i],
                c.analog_configs@,
                c.num_status_channels as int,
                c.sampling_rates@,
                c.is_timestamp_critical,
                base,
                c.timestamp_multiplication_factor,
            ));
            let toks = spec_tokens(rows[i]);
            assert forall|j: int| 0 <= j < na implies (#[trigger] rec.analog_channels@[j]).data@[i]
                == scaled(
                rat_of_token(spec_tokens(nonblank_lines(dat)[i])[2 + j]),
                cfg_mult_of(lines, j),
                cfg_adder_of(lines, j),
            ) by {
                assert(rec.analog_channels@[j].data@[i] == d.analog_rows@[i]@[j]);
                assert(c.analog_configs@[j].multiplier == cfg_mult_of(lines, j));
            }
            assert forall|j: int| 0 <= j < ns implies (#[trigger] rec.status_channels@[j]).data@[i]
                == uint_token_val(spec_tokens(nonblank_lines(dat)[i])[2 + na + j]) by {
                assert(rec.status_channels@[j].data@[i] == d.status_rows@[i]@[j]);
            }
        }
        assert(record_rows_bound(rec, cfg, dat));
    } else {
        let rsize = record_size(cfg_format_of(lines), na, ns);
        let count = bin_count(
            dat.len() as int,
            cfg_crit_of(lines),
            cfg_total_of(lines),
            rsize,
        );
        assert forall|i: int| 0 <= i < count implies #[trigger] bin_row_bound(rec, lines, dat, i) by {
            assert(crate::parser::dat::bin_record_matches_at(
                d,
                i,
                dat,
                rsize,
                c.data_format,
                c.analog_configs@,
                c.num_status_channels as int,
                c.sampling_rates@,
                c.is_timestamp_critical,
                base,
                c.timestamp_multiplication_factor,
            ));
            let base_off = i * rsize;
            assert forall|j: int| 0 <= j < na implies (#[trigger] rec.analog_channels@[j]).data@[i]
                == scaled(
                bin_raw(dat, base_off, cfg_format_of(lines), j),
                cfg_mult_of(lines, j),
                cfg_adder_of(lines, j),
            ) by {
                assert(rec.analog_channels@[j].data@[i] == d.analog_rows@[i]@[j]);
                assert(c.analog_configs@[j].multiplier == cfg_mult_of(lines, j));
            }
            assert forall|j: int| 0 <= j < ns implies (#[trigger] rec.status_channels@[j]).data@[i]
                == crate::parser::dat::bin_status_val(dat, base_off, cfg_format_of(lines), na, j)
                by {
                assert(rec.status_channels@[j].data@[i] == d.status_rows@[i]@[j]);
            }
        }
        assert(record_rows_bound(rec, cfg, dat));
    }
}

/// Builds a parser from the chosen input streams: either one combined
/// container buffer, or a configuration buffer plus a data buffer, with
/// two optional annotation buffers that are carried but never interpreted.
pub struct ComtradeParserBuilder {
    pub cff_file: Option<Vec<u8>>,
    pub cfg_file: Option<Vec<u8>>,
    pub dat_file: Option<Vec<u8>>,
    pub hdr_file: Option<Vec<u8>>,
    pub inf_file: Option<Vec<u8>>,
}

impl ComtradeParserBuilder {
    pub fn new() -> (r: Self)
        ensures
            r.cff_file is None && r.cfg_file is None && r.dat_file is None && r.hdr_file is None
                && r.inf_file is None,
    {
        Self { cff_file: None, cfg_file: None, dat_file: None, hdr_file: None, inf_file: None }
    }

    pub fn cff_file(self, file: Vec<u8>) -> (r: Self)
        ensures
            r.cff_file == Some(file),
            r.cfg_file == self.cfg_file && r.dat_file == self.dat_file && r.hdr_file
                == self.hdr_file && r.inf_file == self.inf_file,
    {
        Self { cff_file: Some(file), ..self }
    }

    pub fn cfg_file(self, file: Vec<u8>) -> (r: Self)
        ensures
            r.cfg_file == Some(file),
            r.cff_file == self.cff_file && r.dat_file == self.dat_file && r.hdr_file
                == self.hdr_file && r.inf_file == self.inf_file,
    {
        Self { cfg_file: Some(file), ..self }
    }

    pub fn dat_file(self, file: Vec<u8>) -> (r: Self)
        ensures
            r.dat_file == Some(file),
            r.cff_file == self.cff_file && r.cfg_file == self.cfg_file && r.hdr_file
                == self.hdr_file && r.inf_file == self.inf_file,
    {
        Self { dat_file: Some(file), ..self }
    }

    pub fn hdr_file(self, file: Vec<u8>) -> (r: Self)
        ensures
            r.hdr_file == Some(file),
            r.cff_file == self.cff_file && r.cfg_file == self.cfg_file && r.dat_file
                == self.dat_file && r.inf_file == self.inf_file,
    {
        Self { hdr_file: Some(file), ..self }
    }

    pub fn inf_file(self, file: Vec<u8>) -> (r: Self)
        ensures
            r.inf_file == Some(file),
            r.cff_file == self.cff_file && r.cfg_file == self.cfg_file && r.dat_file
                == self.dat_file && r.hdr_file == self.hdr_file,
    {
        Self { inf_file: Some(file), ..self }
    }

    pub fn build(self) -> (r: ComtradeParser)
        ensures
            r.cff_file == self.cff_file && r.cfg_file == self.cfg_file && r.dat_file
                == self.dat_file && r.hdr_file == self.hdr_file && r.inf_file == self.inf_file,
    {
        ComtradeParser::new(self.cff_file, self.cfg_file, self.dat_file, self.hdr_file, self.inf_file)
    }
}

/// Owns the chosen input buffers for the duration of one parse; on success
/// it is consumed into one immutable record, and no partial record is ever
/// exposed.
pub struct ComtradeParser {
    pub cff_file: Option<Vec<u8>>,
    pub cfg_file: Option<Vec<u8>>,
    pub dat_file: Option<Vec<u8>>,
    pub hdr_file: Option<Vec<u8>>,
    pub inf_file: Option<Vec<u8>>,
}

/// Reads one column out of the row-major analog data.
fn column_rationals(rows: &Vec<Vec<Rational>>, j: usize) -> (r: Vec<Rational>)
    requires
        forall|i: int| 0 <= i < rows@.len() ==> j < (#[trigger] rows@[i])@.len(),
    ensures
        r@.len() == rows@.len(),
        forall|i: int| 0 <= i < rows@.len() ==> r@[i] == #[trigger] rows@[i]@[j as int],
{
    let n = rows.len();
    let mut r: Vec<Rational> = Vec::new();
    let mut i: usize = 0;
    while i < n
        invariant
            0 <= i <= n == rows@.len(),
            forall|k: int| 0 <= k < rows@.len() ==> j < (#[trigger] rows@[k])@.len(),
            r@.len() == i,
            forall|k: int| 0 <= k < i ==> r@[k] == #[trigger] rows@[k]@[j as int],
        decreases n - i,
    {
        r.push(rows[i][j]);
        i += 1;
    }
    r
}

/// Reads one column out of the row-major status data.
fn column_u8(rows: &Vec<Vec<u8>>, j: usize) -> (r: Vec<u8>)
    requires
        forall|i: int| 0 <= i < rows@.len() ==> j < (#[trigger] rows@[i])@.len(),
    ensures
        r@.len() == rows@.len(),
        forall|i: int| 0 <= i < rows@.len() ==> r@[i] == #[trigger] rows@[i]@[j as int],
{
    let n = rows.len();
    let mut r: Vec<u8> = Vec::new();
    let mut i: usize = 0;
    while i < n
        invariant
            0 <= i <= n == rows@.len(),
            forall|k: int| 0 <= k < rows@.len() ==> j < (#[trigger] rows@[k])@.len(),
            r@.len() == i,
            forall|k: int| 0 <= k < i ==> r@[k] == #[trigger] rows@[k]@[j as int],
        decreases n - i,
    {
        r.push(rows[i][j]);
        i += 1;
    }
    r
}

impl ComtradeParser {
    /// The configuration bytes the parse works on: demultiplexed out of the
    /// container when one is given, else the separate buffer.
    pub open spec fn effective_cfg(self) -> Seq<u8> {
        match self.cff_file {
            Some(cff) => {
                let d = spec_demux(
                    spec_split(cff@, NEWLINE),
                    0,
                    None,
                    None,
                    None,
                    None,
                    None,
                    None,
                    None,
                );
                (d->0).0
            },
            None => (self.cfg_file->0)@,
        }
    }

    /// The data bytes the parse works on.
    pub open spec fn effective_dat(self) -> Seq<u8> {
        match self.cff_file {
            Some(cff) => {
                let d = spec_demux(
                    spec_split(cff@, NEWLINE),
                    0,
                    None,
                    None,
                    None,
                    None,
                    None,
                    None,
                    None,
                );
                (d->0).1
            },
            None => (self.dat_file->0)@,
        }
    }

    pub fn new(
        cff_file: Option<Vec<u8>>,
        cfg_file: Option<Vec<u8>>,
        dat_file: Option<Vec<u8>>,
        hdr_file: Option<Vec<u8>>,
        inf_file: Option<Vec<u8>>,
    ) -> (r: Self)
        ensures
            r.cff_file == cff_file && r.cfg_file == cfg_file && r.dat_file == dat_file
                && r.hdr_file == hdr_file && r.inf_file == inf_file,
    {
        Self { cff_file, cfg_file, dat_file, hdr_file, inf_file }
    }

    pub fn dat_file(self, file: Vec<u8>) -> (r: Self)
        ensures
            r.dat_file == Some(file),
            r.cff_file == self.cff_file && r.cfg_file == self.cfg_file && r.hdr_file
                == self.hdr_file && r.inf_file == self.inf_file,
    {
        Self { dat_file: Some(file), ..self }
    }

    pub fn hdr_file(self, file: Vec<u8>) -> (r: Self)
        ensures
            r.hdr_file == Some(file),
            r.cff_file == self.cff_file && r.cfg_file == self.cfg_file && r.dat_file
                == self.dat_file && r.inf_file == self.inf_file,
    {
        Self { hdr_file: Some(file), ..self }
    }

    pub fn inf_file(self, file: Vec<u8>) -> (r: Self)
        ensures
            r.inf_file == Some(file),
            r.cff_file == self.cff_file && r.cfg_file == self.cfg_file && r.dat_file
                == self.dat_file && r.hdr_file == self.hdr_file,
    {
        Self { inf_file: Some(file), ..self }
    }

    /// Runs the whole decode pipeline and consumes the parser: the
    /// demultiplexer when a combined container was given, the
    /// configuration grammar, then the text or binary data decoder. It
    /// succeeds exactly when the chosen inputs are acceptable; the record
    /// is then bound, field by field and sample by sample, to what the
    /// input bytes write, and fields gated behind a newer revision than
    /// the record's stay unset.
    #[verifier::rlimit(100)]
    #[verifier::spinoff_prover]
    pub fn parse(self) -> (r: Result<Comtrade, ComtradeError>)
        ensures
            r is Ok <==> parse_accepted(self),
            r is Ok ==> record_bound(r->Ok_0, self.effective_cfg(), self.effective_dat()),
            r is Ok ==> ({
                let rec = r->Ok_0;
                &&& rec.timestamps@.len() == rec.sample_numbers@.len()
                &&& (forall|c: int|
                    0 <= c < rec.analog_channels@.len()
                        ==> (#[trigger] rec.analog_channels@[c]).data@.len()
                        == rec.sample_numbers@.len())
                &&& (forall|c: int|
                    0 <= c < rec.status_channels@.len()
                        ==> (#[trigger] rec.status_channels@[c]).data@.len()
                        == rec.sample_numbers@.len())
                &&& (rec.revision is Revision1991 ==> rec.timestamp_multiplication_factor == (
                Rational { neg: false, num: 1, den: 1 }))
                &&& ((rec.revision is Revision1991 || rec.revision is Revision1999) ==> {
                    &&& rec.time_offset is None
                    &&& rec.local_offset is None
                    &&& rec.time_quality is None
                    &&& rec.leap_second_status is None
                })
            }),
    {
        let cfg_bytes: Vec<u8>;
        let dat_bytes: Vec<u8>;
        match self.cff_file {
            Some(cff) => {
                let sections = match crate::parser::cff::load_cff(cff.as_slice()) {
                    Ok(s) => s,
                    Err(e) => {
                        return Err(ComtradeError::ParserError(e));
                    },
                };
                cfg_bytes = sections.cfg;
                dat_bytes = sections.dat;
                proof {
                    assert(cfg_bytes@ == self.effective_cfg());
                    assert(dat_bytes@ == self.effective_dat());
                    assert(parse_accepted(self) == decode_accepted(cfg_bytes@, dat_bytes@));
                }
            },
            None => {
                match self.cfg_file {
                    Some(c) => {
                        cfg_bytes = c;
                    },
                    None => {
                        return Err(
                            ComtradeError::ParserError(
                                ParseError {
                                    message: "you must specify either a container or a configuration buffer".to_owned(),
                                },
                            ),
                        );
                    },
                }
                match self.dat_file {
                    Some(d) => {
                        dat_bytes = d;
                    },
                    None => {
                        return Err(
                            ComtradeError::ParserError(
                                ParseError {
                                    message: "you must specify either a container or a data buffer".to_owned(),
                                },
                            ),
                        );
                    },
                }
                proof {
                    assert(cfg_bytes@ == self.effective_cfg());
                    assert(dat_bytes@ == self.effective_dat());
                    assert(parse_accepted(self) == decode_accepted(cfg_bytes@, dat_bytes@));
                }
            },
        }
        let ghost lines = spec_split(cfg_bytes@, NEWLINE);

        let c: CfgData = match crate::parser::cfg::parse_cfg(cfg_bytes.as_slice()) {
            Ok(v) => v,
            Err(e) => {
                return Err(e);
            },
        };
        let ghost c0 = c;
        proof {
            lemma_cfg_determines(cfg_bytes@, c0);
        }

        let is_ascii = matches!(c.data_format, DataFormat::Ascii);
        let base_unit = c.ts_base_unit.to_value();
        proof {
            assert(base_unit == cfg_base_unit_of(lines));
            assert(cfg_decodes_as(c0, cfg_bytes@, base_unit));
        }
        let d: DatData;
        if is_ascii {
            match crate::parser::dat::parse_dat_ascii(
                dat_bytes.as_slice(),
                &c.analog_configs,
                c.num_status_channels,
                &c.sampling_rates,
                c.is_timestamp_critical,
                &base_unit,
                &c.timestamp_multiplication_factor,
            ) {
                Ok(v) => {
                    proof {
                        let rows = nonblank_lines(dat_bytes@);
                        assert forall|i: int| 0 <= i < v.analog_rows@.len() implies (
                        #[trigger] v.analog_rows@[i])@.len() == c.analog_configs@.len()
                            && v.status_rows@[i]@.len() == c.num_status_channels by {
                            assert(crate::parser::dat::ascii_row_matches(
                                v,
                                i,
                                rows[i],
                                c.analog_configs@,
                                c.num_status_channels as int,
                                c.sampling_rates@,
                                c.is_timestamp_critical,
                                base_unit,
                                c.timestamp_multiplication_factor,
                            ));
                        }
                        assert forall|i: int| 0 <= i < v.status_rows@.len() implies (
                        #[trigger] v.status_rows@[i])@.len() == c.num_status_channels by {
                            assert(crate::parser::dat::ascii_row_matches(
                                v,
                                i,
                                rows[i],
                                c.analog_configs@,
                                c.num_status_channels as int,
                                c.sampling_rates@,
                                c.is_timestamp_critical,
                                base_unit,
                                c.timestamp_multiplication_factor,
                            ));
                        }
                        assert forall|i: int| 0 <= i < rows.len() implies #[trigger] ascii_row_ok_for(
                            lines,
                            rows[i],
                        ) by {
                            lemma_ascii_row_equiv(cfg_bytes@, rows[i], c0, base_unit);
                        }
                        assert(dat_accepted(cfg_bytes@, dat_bytes@));
                    }
                    d = v;
                },
                Err(e) => {
                    proof {
                        let rows = nonblank_lines(dat_bytes@);
                        if ascii_dat_ok(cfg_bytes@, dat_bytes@) {
                            assert forall|i: int| 0 <= i < rows.len() implies crate::parser::dat::ascii_row_ok(
                                #[trigger] rows[i],
                                c.analog_configs@,
                                c.num_status_channels as int,
                                c.sampling_rates@,
                                c.is_timestamp_critical,
                                base_unit,
                                c.timestamp_multiplication_factor,
                            ) by {
                                lemma_ascii_row_equiv(cfg_bytes@, rows[i], c0, base_unit);
                                assert(ascii_row_ok_for(lines, rows[i]));
                            }
                            assert(false);
                        }
                    }
                    return Err(ComtradeError::ParserError(e));
                },
            }
        } else {
            match crate::parser::dat::parse_dat_binary(
                dat_bytes.as_slice(),
                &c.data_format,
                &c.analog_configs,
                c.num_status_channels,
                c.total_num_samples,
                &c.sampling_rates,
                c.is_timestamp_critical,
                &base_unit,
                &c.timestamp_multiplication_factor,
            ) {
                Ok(v) => {
                    proof {
                        let rsize = record_size(
                            c.data_format,
                            c.analog_configs@.len() as int,
                            c.num_status_channels as int,
                        );
                        let count = bin_count(
                            dat_bytes@.len() as int,
                            c.is_timestamp_critical,
                            c.total_num_samples as int,
                            rsize,
                        );
                        assert forall|i: int| 0 <= i < v.analog_rows@.len() implies (
                        #[trigger] v.analog_rows@[i])@.len() == c.analog_configs@.len()
                            && v.status_rows@[i]@.len() == c.num_status_channels by {
                            assert(crate::parser::dat::bin_record_matches_at(
                                v,
                                i,
                                dat_bytes@,
                                rsize,
                                c.data_format,
                                c.analog_configs@,
                                c.num_status_channels as int,
                                c.sampling_rates@,
                                c.is_timestamp_critical,
                                base_unit,
                                c.timestamp_multiplication_factor,
                            ));
                        }
                        assert forall|i: int| 0 <= i < v.status_rows@.len() implies (
                        #[trigger] v.status_rows@[i])@.len() == c.num_status_channels by {
                            assert(crate::parser::dat::bin_record_matches_at(
                                v,
                                i,
                                dat_bytes@,
                                rsize,
                                c.data_format,
                                c.analog_configs@,
                                c.num_status_channels as int,
                                c.sampling_rates@,
                                c.is_timestamp_critical,
                                base_unit,
                                c.timestamp_multiplication_factor,
                            ));
                        }
                        assert forall|i: int| 0 <= i < count implies #[trigger] bin_record_ok_for(
                            lines,
                            dat_bytes@,
                            i,
                        ) by {
                            assert(bin_record_ok_at(
                                dat_bytes@,
                                i,
                                rsize,
                                c.data_format,
                                c.analog_configs@,
                                c.sampling_rates@,
                                c.is_timestamp_critical,
                                base_unit,
                                c.timestamp_multiplication_factor,
                            ));
                            lemma_bin_record_equiv(cfg_bytes@, dat_bytes@, i, c0, base_unit);
                        }
                        assert(dat_accepted(cfg_bytes@, dat_bytes@));
                    }
                    d = v;
                },
                Err(e) => {
                    proof {
                        let rsize = record_size(
                            c.data_format,
                            c.analog_configs@.len() as int,
                            c.num_status_channels as int,
                        );
                        let count = bin_count(
                            dat_bytes@.len() as int,
                            c.is_timestamp_critical,
                            c.total_num_samples as int,
                            rsize,
                        );
                        if bin_dat_ok(cfg_bytes@, dat_bytes@) {
                            assert forall|i: int| 0 <= i < count implies #[trigger] bin_record_ok_at(
                                dat_bytes@,
                                i,
                                rsize,
                                c.data_format,
                                c.analog_configs@,
                                c.sampling_rates@,
                                c.is_timestamp_critical,
                                base_unit,
                                c.timestamp_multiplication_factor,
                            ) by {
                                lemma_bin_record_equiv(cfg_bytes@, dat_bytes@, i, c0, base_unit);
                                assert(bin_record_ok_for(lines, dat_bytes@, i));
                            }
                            assert(false);
                        }
                    }
                    return Err(ComtradeError::ParserError(e));
                },
            }
        }
        let ghost d0 = d;

        // Assemble the channels: one column of the row-major data each.
        let rows = d.sample_numbers.len();
        let mut analog_channels: Vec<AnalogChannel> = Vec::new();
        let mut j: usize = 0;
        let na = c.analog_configs.len();
        let mut analog_configs = c.analog_configs;
        proof {
            assert(analog_configs@ =~= c0.analog_configs@.skip(0));
        }
        while j < na
            invariant
                0 <= j <= na == c0.analog_configs@.len(),
                d0 == d,
                analog_configs@ == c0.analog_configs@.skip(j as int),
                d0.analog_rows@.len() == rows,
                rows == d0.sample_numbers@.len(),
                forall|i: int|
                    0 <= i < d0.analog_rows@.len() ==> (#[trigger] d0.analog_rows@[i])@.len()
                        == na,
                analog_channels@.len() == j,
                forall|k: int|
                    0 <= k < j ==> (#[trigger] analog_channels@[k]).data@.len() == rows,
                forall|k: int|
                    0 <= k < j ==> (#[trigger] analog_channels@[k]).config
                        == c0.analog_configs@[k],
                forall|k: int, i: int|
                    0 <= k < j && 0 <= i < rows ==> (#[trigger] analog_channels@[k].data@[i])
                        == d0.analog_rows@[i]@[k],
            decreases na - j,
        {
            let config = analog_configs.remove(0);
            proof {
                assert(c0.analog_configs@.skip(j as int).remove(0) =~= c0.analog_configs@.skip(
                    j as int + 1,
                ));
                assert(config == c0.analog_configs@[j as int]);
            }
            let data = column_rationals(&d.analog_rows, j);
            analog_channels.push(AnalogChannel { config, data });
            j += 1;
        }
        let ns = c.num_status_channels;
        let mut status_channels: Vec<StatusChannel> = Vec::new();
        let mut j2: usize = 0;
        let mut status_configs = c.status_configs;
        proof {
            assert(status_configs@ =~= c0.status_configs@.skip(0));
        }
        while j2 < ns
            invariant
                0 <= j2 <= ns == c0.status_configs@.len(),
                d0 == d,
                status_configs@ == c0.status_configs@.skip(j2 as int),
                d0.status_rows@.len() == rows,
                rows == d0.sample_numbers@.len(),
                forall|i: int|
                    0 <= i < d0.status_rows@.len() ==> (#[trigger] d0.status_rows@[i])@.len()
                        == ns,
                status_channels@.len() == j2,
                forall|k: int|
                    0 <= k < j2 ==> (#[trigger] status_channels@[k]).data@.len() == rows,
                forall|k: int|
                    0 <= k < j2 ==> (#[trigger] status_channels@[k]).config
                        == c0.status_configs@[k],
                forall|k: int, i: int|
                    0 <= k < j2 && 0 <= i < rows ==> (#[trigger] status_channels@[k].data@[i])
                        == d0.status_rows@[i]@[k],
            decreases ns - j2,
        {
            let config = status_configs.remove(0);
            proof {
                assert(c0.status_configs@.skip(j2 as int).remove(0) =~= c0.status_configs@.skip(
                    j2 as int + 1,
                ));
                assert(config == c0.status_configs@[j2 as int]);
            }
            let data = column_u8(&d.status_rows, j2);
            status_channels.push(StatusChannel { config, data });
            j2 += 1;
        }

        let rec = Comtrade {
            station_name: c.station_name,
            recording_device_id: c.recording_device_id,
            revision: c.revision,
            sample_numbers: d.sample_numbers,
            timestamps: d.timestamps,
            analog_channels,
            status_channels,
            line_frequency: c.line_frequency,
            sampling_rates: c.sampling_rates,
            start_time: c.start_time.date_time,
            trigger_time: c.trigger_time.date_time,
            data_format: c.data_format,
            timestamp_multiplication_factor: c.timestamp_multiplication_factor,
            time_offset: c.time_offset,
            local_offset: c.local_offset,
            time_quality: c.time_quality,
            leap_second_status: c.leap_second_status,
        };
        proof {
            lemma_record_is_bound(rec, cfg_bytes@, dat_bytes@, c0, d0, base_unit);
        }
        Ok(rec)
    }

}

/// A decode error with a fixed message.
pub(crate) fn plain_error(message: &str) -> (r: ParseError) {
    ParseError { message: message.to_owned() }
}

/// A decode error whose message quotes the offending token.
pub(crate) fn token_error(prefix: &str, token: &[u8]) -> (r: ParseError) {
    let mut message = prefix.to_owned();
    message.append(crate::text::bytes_to_string(token).as_str());
    message.append("'");
    ParseError { message }
}

} // verus!
