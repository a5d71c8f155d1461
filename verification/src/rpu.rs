//! The Dolby Vision RPU (Reference Processing Unit) metadata codec:
//! the typed in-memory form of an RPU NAL, the bit-level parser over a
//! cleared (de-escaped) payload, validation, the profile-8.1 rewrite,
//! and the byte-exact serializer that re-encodes the header and splices
//! the remaining bits of the original payload unchanged.
use vstd::prelude::*;

verus! {

use crate::DemuxError;
use crate::bits::{
    BitVecReader, BitVecWriter, spec_read_n, spec_read_bit, spec_read_ue, spec_read_se,
    spec_ue_bits, spec_se_bits, u64_bits, lemma_read_n_bound, lemma_read_ue_ok, bytes_to_bits,
    bits_to_bytes_padded,
};
use vstd::arithmetic::power2::pow2;

/// The decoded header and payload of one RPU NAL.
pub struct RpuNal {
    pub header_end: usize,
    pub rpu_nal_prefix: u8,
    pub rpu_type: u8,
    pub rpu_format: u16,
    pub vdr_rpu_profile: u8,
    pub vdr_rpu_level: u8,
    pub vdr_seq_info_present_flag: bool,
    pub chroma_resampling_explicit_filter_flag: bool,
    pub coefficient_data_type: u8,
    pub coefficient_log2_denom: u64,
    pub vdr_rpu_normalized_idc: u8,
    pub bl_video_full_range_flag: bool,
    pub bl_bit_depth_minus8: u64,
    pub el_bit_depth_minus8: u64,
    pub vdr_bit_depth_minus_8: u64,
    pub spatial_resampling_filter_flag: bool,
    pub reserved_zero_3bits: u8,
    pub el_spatial_resampling_filter_flag: bool,
    pub disable_residual_flag: bool,
    pub vdr_dm_metadata_present_flag: bool,
    pub use_prev_vdr_rpu_flag: bool,
    pub prev_vdr_rpu_id: u64,
    pub vdr_rpu_id: u64,
    pub mapping_color_space: u64,
    pub mapping_chroma_format_idc: u64,
    pub num_pivots_minus_2: Vec<u64>,
    pub pred_pivot_value: Vec<Vec<u64>>,
    pub nlq_method_idc: u8,
    pub nlq_num_pivots_minus2: u8,
    pub num_x_partitions_minus1: u64,
    pub num_y_partitions_minus1: u64,
    pub vdr_rpu_data: Option<VdrRpuData>,
    pub nlq_data: Option<NlqData>,
    pub vdr_dm_data: Option<VdrDmData>,
    pub rpu_data_crc32: u32,
}

/// The mathematical view of an RPU NAL: header fields as plain values,
/// payload sections reduced to their presence.
pub struct RpuNalView {
    pub header_end: int,
    pub rpu_nal_prefix: u8,
    pub rpu_type: u8,
    pub rpu_format: u16,
    pub vdr_rpu_profile: u8,
    pub vdr_rpu_level: u8,
    pub vdr_seq_info_present_flag: bool,
    pub chroma_resampling_explicit_filter_flag: bool,
    pub coefficient_data_type: u8,
    pub coefficient_log2_denom: u64,
    pub vdr_rpu_normalized_idc: u8,
    pub bl_video_full_range_flag: bool,
    pub bl_bit_depth_minus8: u64,
    pub el_bit_depth_minus8: u64,
    pub vdr_bit_depth_minus_8: u64,
    pub spatial_resampling_filter_flag: bool,
    pub reserved_zero_3bits: u8,
    pub el_spatial_resampling_filter_flag: bool,
    pub disable_residual_flag: bool,
    pub vdr_dm_metadata_present_flag: bool,
    pub use_prev_vdr_rpu_flag: bool,
    pub prev_vdr_rpu_id: u64,
    pub vdr_rpu_id: u64,
    pub mapping_color_space: u64,
    pub mapping_chroma_format_idc: u64,
    pub num_pivots_minus_2: Seq<u64>,
    pub pred_pivot_value: Seq<Seq<u64>>,
    pub nlq_method_idc: u8,
    pub nlq_num_pivots_minus2: u8,
    pub num_x_partitions_minus1: u64,
    pub num_y_partitions_minus1: u64,
    pub has_vdr_rpu_data: bool,
    pub has_nlq_data: bool,
    pub has_vdr_dm_data: bool,
    pub rpu_data_crc32: u32,
}

impl View for RpuNal {
    type V = RpuNalView;

    open spec fn view(&self) -> RpuNalView {
        RpuNalView {
            header_end: self.header_end as int,
            rpu_nal_prefix: self.rpu_nal_prefix,
            rpu_type: self.rpu_type,
            rpu_format: self.rpu_format,
            vdr_rpu_profile: self.vdr_rpu_profile,
            vdr_rpu_level: self.vdr_rpu_level,
            vdr_seq_info_present_flag: self.vdr_seq_info_present_flag,
            chroma_resampling_explicit_filter_flag: self.chroma_resampling_explicit_filter_flag,
            coefficient_data_type: self.coefficient_data_type,
            coefficient_log2_denom: self.coefficient_log2_denom,
            vdr_rpu_normalized_idc: self.vdr_rpu_normalized_idc,
            bl_video_full_range_flag: self.bl_video_full_range_flag,
            bl_bit_depth_minus8: self.bl_bit_depth_minus8,
            el_bit_depth_minus8: self.el_bit_depth_minus8,
            vdr_bit_depth_minus_8: self.vdr_bit_depth_minus_8,
            spatial_resampling_filter_flag: self.spatial_resampling_filter_flag,
            reserved_zero_3bits: self.reserved_zero_3bits,
            el_spatial_resampling_filter_flag: self.el_spatial_resampling_filter_flag,
            disable_residual_flag: self.disable_residual_flag,
            vdr_dm_metadata_present_flag: self.vdr_dm_metadata_present_flag,
            use_prev_vdr_rpu_flag: self.use_prev_vdr_rpu_flag,
            prev_vdr_rpu_id: self.prev_vdr_rpu_id,
            vdr_rpu_id: self.vdr_rpu_id,
            mapping_color_space: self.mapping_color_space,
            mapping_chroma_format_idc: self.mapping_chroma_format_idc,
            num_pivots_minus_2: self.num_pivots_minus_2@,
            pred_pivot_value: self.pred_pivot_value.deep_view(),
            nlq_method_idc: self.nlq_method_idc,
            nlq_num_pivots_minus2: self.nlq_num_pivots_minus2,
            num_x_partitions_minus1: self.num_x_partitions_minus1,
            num_y_partitions_minus1: self.num_y_partitions_minus1,
            has_vdr_rpu_data: self.vdr_rpu_data is Some,
            has_nlq_data: self.nlq_data is Some,
            has_vdr_dm_data: self.vdr_dm_data is Some,
            rpu_data_crc32: self.rpu_data_crc32,
        }
    }
}

/// The per-component per-pivot mapping payload.
pub struct VdrRpuData {
    pub mapping_idc: Vec<Vec<u64>>,
    pub mapping_param_pred_flag: Vec<Vec<bool>>,
    pub num_mapping_param_predictors: Vec<Vec<u64>>,
    pub diff_pred_part_idx_mapping_minus1: Vec<Vec<u64>>,
    pub poly_order_minus1: Vec<Vec<u64>>,
    pub linear_interp_flag: Vec<Vec<bool>>,
    pub pred_linear_interp_value_int: Vec<Vec<u64>>,
    pub pred_linear_interp_value: Vec<Vec<u64>>,
    pub poly_coef_int: Vec<Vec<i64>>,
    pub poly_coef: Vec<Vec<u64>>,
    pub mmr_order_minus1: Vec<Vec<u8>>,
    pub mmr_constant_int: Vec<Vec<i64>>,
    pub mmr_constant: Vec<Vec<u64>>,
    pub mmr_coef_int: Vec<Vec<Vec<Vec<i64>>>>,
    pub mmr_coef: Vec<Vec<Vec<Vec<u64>>>>,
}

/// The per-pivot per-component non-linear-quantization payload.
pub struct NlqData {
    pub num_nlq_param_predictors: Vec<Vec<u64>>,
    pub nlq_param_pred_flag: Vec<Vec<bool>>,
    pub diff_pred_part_idx_nlq_minus1: Vec<Vec<u64>>,
    pub nlq_offset: Vec<Vec<u64>>,
    pub vdr_in_max_int: Vec<Vec<u64>>,
    pub vdr_in_max: Vec<Vec<u64>>,
    pub linear_deadzone_slope_int: Vec<Vec<u64>>,
    pub linear_deadzone_slope: Vec<Vec<u64>>,
    pub linear_deadzone_threshold_int: Vec<Vec<u64>>,
    pub linear_deadzone_threshold: Vec<Vec<u64>>,
}

/// The display-management payload: color matrices, signal parameters
/// and the extension metadata blocks.
pub struct VdrDmData {
    pub affected_dm_metadata_id: u64,
    pub current_dm_metadata_id: u64,
    pub scene_refresh_flag: u64,
    pub ycc_to_rgb_coef0: i16,
    pub ycc_to_rgb_coef1: i16,
    pub ycc_to_rgb_coef2: i16,
    pub ycc_to_rgb_coef3: i16,
    pub ycc_to_rgb_coef4: i16,
    pub ycc_to_rgb_coef5: i16,
    pub ycc_to_rgb_coef6: i16,
    pub ycc_to_rgb_coef7: i16,
    pub ycc_to_rgb_coef8: i16,
    pub ycc_to_rgb_offset0: u32,
    pub ycc_to_rgb_offset1: u32,
    pub ycc_to_rgb_offset2: u32,
    pub rgb_to_lms_coef0: i16,
    pub rgb_to_lms_coef1: i16,
    pub rgb_to_lms_coef2: i16,
    pub rgb_to_lms_coef3: i16,
    pub rgb_to_lms_coef4: i16,
    pub rgb_to_lms_coef5: i16,
    pub rgb_to_lms_coef6: i16,
    pub rgb_to_lms_coef7: i16,
    pub rgb_to_lms_coef8: i16,
    pub signal_eotf: u16,
    pub signal_eotf_param0: u16,
    pub signal_eotf_param1: u16,
    pub signal_eotf_param2: u32,
    pub signal_bit_depth: u8,
    pub signal_color_space: u8,
    pub signal_chroma_format: u8,
    pub signal_full_range_flag: u8,
    pub source_min_pq: u16,
    pub source_max_pq: u16,
    pub source_diagonal: u16,
    pub num_ext_blocks: u64,
    pub ext_metadata_blocks: Vec<ExtMetadataBlock>,
}

/// One extension metadata block; the fields beyond `ext_block_level`
/// are meaningful per level (1: PQ statistics, 2: trims, 5: active area).
pub struct ExtMetadataBlock {
    pub ext_block_length: u64,
    pub ext_block_level: u8,
    pub min_pq: u16,
    pub max_pq: u16,
    pub avg_pq: u16,
    pub target_max_pq: u16,
    pub trim_slope: u16,
    pub trim_offset: u16,
    pub trim_power: u16,
    pub trim_chroma_weight: u16,
    pub trim_saturation_gain: u16,
    pub ms_weight: i16,
    pub active_area_left_offset: u16,
    pub active_area_right_offset: u16,
    pub active_area_top_offset: u16,
    pub active_area_bottom_offset: u16,
}

/// The view of a freshly initialised RPU record: every field zero,
/// false or empty.
pub open spec fn init_rpu_view() -> RpuNalView {
    RpuNalView {
        header_end: 0,
        rpu_nal_prefix: 0,
        rpu_type: 0,
        rpu_format: 0,
        vdr_rpu_profile: 0,
        vdr_rpu_level: 0,
        vdr_seq_info_present_flag: false,
        chroma_resampling_explicit_filter_flag: false,
        coefficient_data_type: 0,
        coefficient_log2_denom: 0,
        vdr_rpu_normalized_idc: 0,
        bl_video_full_range_flag: false,
        bl_bit_depth_minus8: 0,
        el_bit_depth_minus8: 0,
        vdr_bit_depth_minus_8: 0,
        spatial_resampling_filter_flag: false,
        reserved_zero_3bits: 0,
        el_spatial_resampling_filter_flag: false,
        disable_residual_flag: false,
        vdr_dm_metadata_present_flag: false,
        use_prev_vdr_rpu_flag: false,
        prev_vdr_rpu_id: 0,
        vdr_rpu_id: 0,
        mapping_color_space: 0,
        mapping_chroma_format_idc: 0,
        num_pivots_minus_2: Seq::empty(),
        pred_pivot_value: Seq::empty(),
        nlq_method_idc: 0,
        nlq_num_pivots_minus2: 0,
        num_x_partitions_minus1: 0,
        num_y_partitions_minus1: 0,
        has_vdr_rpu_data: false,
        has_nlq_data: false,
        has_vdr_dm_data: false,
        rpu_data_crc32: 0,
    }
}

/// The invariants an RPU must meet after decoding.
pub open spec fn rpu_validate_spec(h: RpuNalView) -> bool {
    &&& h.rpu_nal_prefix == 25
    &&& h.vdr_rpu_profile == 1
    &&& h.vdr_rpu_level == 0
    &&& h.bl_bit_depth_minus8 == 2
    &&& h.el_bit_depth_minus8 == 2
    &&& h.vdr_bit_depth_minus_8 <= 6
    &&& h.mapping_color_space == 0
    &&& h.mapping_chroma_format_idc == 0
    &&& h.coefficient_log2_denom <= 23
    &&& h.nlq_method_idc == 0
    &&& h.nlq_num_pivots_minus2 == 0
}

/// The profile-8.1 rewrite: no enhancement-layer spatial resampling,
/// residuals disabled.
pub open spec fn to_81_spec(h: RpuNalView) -> RpuNalView {
    RpuNalView { el_spatial_resampling_filter_flag: false, disable_residual_flag: true, ..h }
}

/// The profile-8.1 rewrite is idempotent: applying it twice equals
/// applying it once.
pub proof fn lemma_to_81_idempotent(h: RpuNalView)
    ensures
        to_81_spec(to_81_spec(h)) == to_81_spec(h),
{
}

/// Idempotence at the level of whole records: a second rewrite leaves a
/// rewritten record, payload sections included, exactly as it stands.
pub proof fn lemma_to_81_record_idempotent(r: RpuNal)
    ensures
        (RpuNal {
            el_spatial_resampling_filter_flag: false,
            disable_residual_flag: true,
            ..(RpuNal {
                el_spatial_resampling_filter_flag: false,
                disable_residual_flag: true,
                ..r
            })
        }) == (RpuNal {
            el_spatial_resampling_filter_flag: false,
            disable_residual_flag: true,
            ..r
        }),
{
}

/// `count` fixed-width pivot values.
pub open spec fn spec_parse_pivot_vals(bits: Seq<bool>, pos: int, count: int, width: int) -> Result<
    (Seq<u64>, int),
    DemuxError,
>
    decreases count,
{
    if count <= 0 {
        Ok((Seq::empty(), pos))
    } else {
        match spec_read_n(bits, pos, width) {
            Ok(vp) => match spec_parse_pivot_vals(bits, vp.1, count - 1, width) {
                Ok(rest) => Ok((seq![vp.0] + rest.0, rest.1)),
                Err(e) => Err(e),
            },
            Err(e) => Err(e),
        }
    }
}

/// One component of the pivot table: a pivot count, then that many
/// plus two pivot values.
pub open spec fn spec_parse_one_component(bits: Seq<bool>, pos: int, width: int) -> Result<
    ((u64, Seq<u64>), int),
    DemuxError,
> {
    match spec_read_ue(bits, pos) {
        Ok(np) => match spec_parse_pivot_vals(bits, np.1, np.0 + 2, width) {
            Ok(pv) => Ok(((np.0, pv.0), pv.1)),
            Err(e) => Err(e),
        },
        Err(e) => Err(e),
    }
}

/// The pivot tables of `k` components.
pub open spec fn spec_parse_components(bits: Seq<bool>, pos: int, width: int, k: int) -> Result<
    (Seq<u64>, Seq<Seq<u64>>, int),
    DemuxError,
>
    decreases k,
{
    if k <= 0 {
        Ok((Seq::empty(), Seq::empty(), pos))
    } else {
        match spec_parse_one_component(bits, pos, width) {
            Ok(cp) => match spec_parse_components(bits, cp.1, width, k - 1) {
                Ok(rest) => Ok((seq![cp.0.0] + rest.0, seq![cp.0.1] + rest.1, rest.2)),
                Err(e) => Err(e),
            },
            Err(e) => Err(e),
        }
    }
}

/// The sequence-information block of the header (present when
/// `vdr_seq_info_present_flag` is set).
pub open spec fn spec_parse_seq_fields(bits: Seq<bool>, pos: int, h: RpuNalView) -> Result<
    (RpuNalView, int),
    DemuxError,
> {
    match spec_read_bit(bits, pos) {
        Err(e) => Err(e),
        Ok(chroma) => match spec_read_n(bits, chroma.1, 2) {
            Err(e) => Err(e),
            Ok(cdt) => {
                let denom_r = if cdt.0 == 0 {
                    spec_read_ue(bits, cdt.1)
                } else {
                    Ok((h.coefficient_log2_denom, cdt.1))
                };
                match denom_r {
                    Err(e) => Err(e),
                    Ok(denom) => match spec_read_n(bits, denom.1, 2) {
                        Err(e) => Err(e),
                        Ok(norm) => match spec_read_bit(bits, norm.1) {
                            Err(e) => Err(e),
                            Ok(range) => {
                                let h1 = RpuNalView {
                                    chroma_resampling_explicit_filter_flag: chroma.0,
                                    coefficient_data_type: cdt.0 as u8,
                                    coefficient_log2_denom: denom.0,
                                    vdr_rpu_normalized_idc: norm.0 as u8,
                                    bl_video_full_range_flag: range.0,
                                    ..h
                                };
                                if h.rpu_format & 0x700 == 0 {
                                    spec_parse_depth_fields(bits, range.1, h1)
                                } else {
                                    Ok((h1, range.1))
                                }
                            },
                        },
                    },
                }
            },
        },
    }
}

/// The bit-depth and resampling fields of the sequence-information
/// block (present when the high bits of `rpu_format` are clear).
pub open spec fn spec_parse_depth_fields(bits: Seq<bool>, pos: int, h: RpuNalView) -> Result<
    (RpuNalView, int),
    DemuxError,
> {
    match spec_read_ue(bits, pos) {
        Err(e) => Err(e),
        Ok(bl) => match spec_read_ue(bits, bl.1) {
            Err(e) => Err(e),
            Ok(el) => match spec_read_ue(bits, el.1) {
                Err(e) => Err(e),
                Ok(vdr) => match spec_read_bit(bits, vdr.1) {
                    Err(e) => Err(e),
                    Ok(spatial) => match spec_read_n(bits, spatial.1, 3) {
                        Err(e) => Err(e),
                        Ok(reserved) => match spec_read_bit(bits, reserved.1) {
                            Err(e) => Err(e),
                            Ok(el_spatial) => match spec_read_bit(bits, el_spatial.1) {
                                Err(e) => Err(e),
                                Ok(disable) => Ok(
                                    (
                                        RpuNalView {
                                            bl_bit_depth_minus8: bl.0,
                                            el_bit_depth_minus8: el.0,
                                            vdr_bit_depth_minus_8: vdr.0,
                                            spatial_resampling_filter_flag: spatial.0,
                                            reserved_zero_3bits: reserved.0 as u8,
                                            el_spatial_resampling_filter_flag: el_spatial.0,
                                            disable_residual_flag: disable.0,
                                            ..h
                                        },
                                        disable.1,
                                    ),
                                ),
                            },
                        },
                    },
                },
            },
        },
    }
}

/// The identifier block of the header, from `use_prev_vdr_rpu_flag`'s
/// branch to the partition counts.
pub open spec fn spec_parse_id_fields(bits: Seq<bool>, pos: int, h: RpuNalView) -> Result<
    (RpuNalView, int),
    DemuxError,
> {
    if h.use_prev_vdr_rpu_flag {
        match spec_read_ue(bits, pos) {
            Err(e) => Err(e),
            Ok(prev) => spec_parse_partitions(
                bits,
                prev.1,
                RpuNalView { prev_vdr_rpu_id: prev.0, ..h },
            ),
        }
    } else {
        match spec_read_ue(bits, pos) {
            Err(e) => Err(e),
            Ok(id) => match spec_read_ue(bits, id.1) {
                Err(e) => Err(e),
                Ok(mcs) => match spec_read_ue(bits, mcs.1) {
                    Err(e) => Err(e),
                    Ok(mcf) => {
                        if h.bl_bit_depth_minus8 > 56 {
                            Err(DemuxError::Malformed)
                        } else {
                            let width = h.bl_bit_depth_minus8 + 8;
                            match spec_parse_components(bits, mcf.1, width as int, 3) {
                                Err(e) => Err(e),
                                Ok(cps) => {
                                    let h1 = RpuNalView {
                                        vdr_rpu_id: id.0,
                                        mapping_color_space: mcs.0,
                                        mapping_chroma_format_idc: mcf.0,
                                        num_pivots_minus_2: cps.0,
                                        pred_pivot_value: cps.1,
                                        ..h
                                    };
                                    if h1.rpu_format & 0x700 == 0 && !h1.disable_residual_flag {
                                        match spec_read_n(bits, cps.2, 3) {
                                            Err(e) => Err(e),
                                            Ok(nlq) => spec_parse_partitions(
                                                bits,
                                                nlq.1,
                                                RpuNalView {
                                                    nlq_method_idc: nlq.0 as u8,
                                                    nlq_num_pivots_minus2: 0,
                                                    ..h1
                                                },
                                            ),
                                        }
                                    } else {
                                        spec_parse_partitions(bits, cps.2, h1)
                                    }
                                },
                            }
                        }
                    },
                },
            },
        }
    }
}

/// The two partition counts that close the header.
pub open spec fn spec_parse_partitions(bits: Seq<bool>, pos: int, h: RpuNalView) -> Result<
    (RpuNalView, int),
    DemuxError,
> {
    match spec_read_ue(bits, pos) {
        Err(e) => Err(e),
        Ok(x) => match spec_read_ue(bits, x.1) {
            Err(e) => Err(e),
            Ok(y) => Ok(
                (
                    RpuNalView {
                        num_x_partitions_minus1: x.0,
                        num_y_partitions_minus1: y.0,
                        ..h
                    },
                    y.1,
                ),
            ),
        },
    }
}

/// The whole RPU header, from the NAL prefix byte on; the position
/// returned is `header_end`, the bit right after the header.
pub open spec fn spec_parse_header(bits: Seq<bool>, pos: int) -> Result<(RpuNalView, int), DemuxError> {
    match spec_read_n(bits, pos, 8) {
        Err(e) => Err(e),
        Ok(prefix) => {
            let h0 = RpuNalView { rpu_nal_prefix: prefix.0 as u8, ..init_rpu_view() };
            if prefix.0 != 25 {
                Ok((h0, prefix.1))
            } else {
                match spec_read_n(bits, prefix.1, 6) {
                    Err(e) => Err(e),
                    Ok(ty) => match spec_read_n(bits, ty.1, 11) {
                        Err(e) => Err(e),
                        Ok(fmt) => {
                            let h1 = RpuNalView {
                                rpu_type: ty.0 as u8,
                                rpu_format: fmt.0 as u16,
                                ..h0
                            };
                            if ty.0 != 2 {
                                Ok((h1, fmt.1))
                            } else {
                                spec_parse_type2_fields(bits, fmt.1, h1)
                            }
                        },
                    },
                }
            }
        },
    }
}

/// The header parse followed by the invariant check: a header that
/// parses but breaks an RPU invariant is `Malformed`.
pub open spec fn spec_parse_header_validated(bits: Seq<bool>, pos: int) -> Result<
    (RpuNalView, int),
    DemuxError,
> {
    match spec_parse_header(bits, pos) {
        Ok(hp) => if rpu_validate_spec(hp.0) {
            Ok(hp)
        } else {
            Err(DemuxError::Malformed)
        },
        Err(e) => Err(e),
    }
}

/// The header fields present for `rpu_type == 2`.
pub open spec fn spec_parse_type2_fields(bits: Seq<bool>, pos: int, h: RpuNalView) -> Result<
    (RpuNalView, int),
    DemuxError,
> {
    match spec_read_n(bits, pos, 4) {
        Err(e) => Err(e),
        Ok(profile) => match spec_read_n(bits, profile.1, 4) {
            Err(e) => Err(e),
            Ok(level) => match spec_read_bit(bits, level.1) {
                Err(e) => Err(e),
                Ok(seq_info) => {
                    let h1 = RpuNalView {
                        vdr_rpu_profile: profile.0 as u8,
                        vdr_rpu_level: level.0 as u8,
                        vdr_seq_info_present_flag: seq_info.0,
                        ..h
                    };
                    let seq_r = if seq_info.0 {
                        spec_parse_seq_fields(bits, seq_info.1, h1)
                    } else {
                        Ok((h1, seq_info.1))
                    };
                    match seq_r {
                        Err(e) => Err(e),
                        Ok(hs) => spec_parse_dm_prev_fields(bits, hs.1, hs.0),
                    }
                },
            },
        },
    }
}

/// The two presence flags after the sequence-information block, then
/// the identifier block.
pub open spec fn spec_parse_dm_prev_fields(bits: Seq<bool>, pos: int, h: RpuNalView) -> Result<
    (RpuNalView, int),
    DemuxError,
> {
    match spec_read_bit(bits, pos) {
        Err(e) => Err(e),
        Ok(dm) => match spec_read_bit(bits, dm.1) {
            Err(e) => Err(e),
            Ok(prev) => spec_parse_id_fields(
                bits,
                prev.1,
                RpuNalView {
                    vdr_dm_metadata_present_flag: dm.0,
                    use_prev_vdr_rpu_flag: prev.0,
                    ..h
                },
            ),
        },
    }
}

/// Too many fixed-width reads for the bits that are left always fail.
proof fn lemma_pivot_vals_truncated(bits: Seq<bool>, pos: int, count: int, width: int)
    requires
        0 <= pos,
        1 <= width <= 64,
        count >= 1,
        pos + count * width > bits.len(),
    ensures
        spec_parse_pivot_vals(bits, pos, count, width) == Err::<(Seq<u64>, int), DemuxError>(
            DemuxError::Truncated,
        ),
    decreases count,
{
    if pos + width > bits.len() {
        assert(spec_read_n(bits, pos, width) == Err::<(u64, int), DemuxError>(
            DemuxError::Truncated,
        ));
    } else {
        assert(count >= 2) by (nonlinear_arith)
            requires
                count >= 1 && 1 <= width <= 64 && pos + count * width > bits.len() && pos + width
                    <= bits.len(),
        ;
        assert((pos + width) + (count - 1) * width > bits.len()) by (nonlinear_arith)
            requires
                pos + count * width > bits.len(),
        ;
        lemma_pivot_vals_truncated(bits, pos + width, count - 1, width);
    }
}

/// Reads `count` pivot values of `width` bits each.
fn parse_pivot_vals(reader: &mut BitVecReader, count: usize, width: usize) -> (r: Result<
    Vec<u64>,
    DemuxError,
>)
    requires
        old(reader).wf(),
        1 <= width <= 64,
    ensures
        final(reader).wf(),
        final(reader).spec_bits() == old(reader).spec_bits(),
        match spec_parse_pivot_vals(
            old(reader).spec_bits(),
            old(reader).spec_pos(),
            count as int,
            width as int,
        ) {
            Ok(vp) => r matches Ok(v) && v@ == vp.0 && final(reader).spec_pos() == vp.1,
            Err(e) => r == Err::<Vec<u64>, DemuxError>(e),
        },
{
    let ghost bits0 = reader.spec_bits();
    let ghost pos0 = reader.spec_pos();
    let mut vals: Vec<u64> = Vec::new();
    let mut idx: usize = 0;
    while idx < count
        invariant
            reader.wf(),
            reader.spec_bits() == bits0,
            bits0 == old(reader).spec_bits(),
            pos0 == old(reader).spec_pos(),
            idx <= count,
            1 <= width <= 64,
            vals@.len() == idx,
            spec_parse_pivot_vals(bits0, pos0, count as int, width as int) == (
            match spec_parse_pivot_vals(
                bits0,
                reader.spec_pos(),
                (count - idx) as int,
                width as int,
            ) {
                Ok(rest) => Ok::<(Seq<u64>, int), DemuxError>((vals@ + rest.0, rest.1)),
                Err(e) => Err::<(Seq<u64>, int), DemuxError>(e),
            }),
        decreases count - idx,
    {
        let ghost vals_pre = vals@;
        let ghost pcur = reader.spec_pos();
        let v = match reader.get_n(width) {
            Ok(v) => v,
            Err(e) => {
                return Err(e);
            },
        };
        vals.push(v);
        proof {
            let fut = spec_parse_pivot_vals(
                bits0,
                reader.spec_pos(),
                (count - idx - 1) as int,
                width as int,
            );
            if fut is Ok {
                let rest = fut->Ok_0;
                assert(vals_pre + (seq![v] + rest.0) =~= vals@ + rest.0);
            }
        }
        idx += 1;
    }
    proof {
        assert(vals@ + Seq::<u64>::empty() =~= vals@);
    }
    Ok(vals)
}

/// Reads one component's pivot count and pivot values.
fn parse_one_component(reader: &mut BitVecReader, width: usize) -> (r: Result<
    (u64, Vec<u64>),
    DemuxError,
>)
    requires
        old(reader).wf(),
        1 <= width <= 64,
    ensures
        final(reader).wf(),
        final(reader).spec_bits() == old(reader).spec_bits(),
        match spec_parse_one_component(
            old(reader).spec_bits(),
            old(reader).spec_pos(),
            width as int,
        ) {
            Ok(cp) => r matches Ok(c) && c.0 == cp.0.0 && c.1@ == cp.0.1 && final(reader).spec_pos() == cp.1,
            Err(e) => r == Err::<(u64, Vec<u64>), DemuxError>(e),
        },
{
    let num = match reader.get_ue() {
        Ok(v) => v,
        Err(e) => {
            return Err(e);
        },
    };
    let rem = reader.remaining();
    let remu = rem as u64;
    if remu < 2 || num > remu - 2 {
        proof {
            reader.lemma_wf();
            let count = num + 2;
            assert(count * (width as int) >= count) by (nonlinear_arith)
                requires
                    count >= 2 && width >= 1,
            ;
            lemma_pivot_vals_truncated(
                reader.spec_bits(),
                reader.spec_pos(),
                count as int,
                width as int,
            );
        }
        return Err(DemuxError::Truncated);
    }
    let count = (num as usize) + 2;
    let vals = match parse_pivot_vals(reader, count, width) {
        Ok(v) => v,
        Err(e) => {
            return Err(e);
        },
    };
    Ok((num, vals))
}

/// Reads the pivot tables of the three components.
fn parse_components(reader: &mut BitVecReader, width: usize) -> (r: Result<
    (Vec<u64>, Vec<Vec<u64>>),
    DemuxError,
>)
    requires
        old(reader).wf(),
        1 <= width <= 64,
    ensures
        final(reader).wf(),
        final(reader).spec_bits() == old(reader).spec_bits(),
        match spec_parse_components(
            old(reader).spec_bits(),
            old(reader).spec_pos(),
            width as int,
            3,
        ) {
            Ok(cps) => r matches Ok(p) && p.0@ == cps.0 && p.1.deep_view() == cps.1 && final(reader).spec_pos() == cps.2,
            Err(e) => r == Err::<(Vec<u64>, Vec<Vec<u64>>), DemuxError>(e),
        },
{
    proof {
        reveal_with_fuel(spec_parse_components, 5);
    }
    let c0 = match parse_one_component(reader, width) {
        Ok(c) => c,
        Err(e) => {
            return Err(e);
        },
    };
    let c1 = match parse_one_component(reader, width) {
        Ok(c) => c,
        Err(e) => {
            return Err(e);
        },
    };
    let c2 = match parse_one_component(reader, width) {
        Ok(c) => c,
        Err(e) => {
            return Err(e);
        },
    };
    let nums = vec![c0.0, c1.0, c2.0];
    let pivots = vec![c0.1, c1.1, c2.1];
    proof {
        let cps = spec_parse_components(
            old(reader).spec_bits(),
            old(reader).spec_pos(),
            width as int,
            3,
        )->Ok_0;
        assert(nums@ =~= cps.0);
        assert(pivots.deep_view() =~~= cps.1);
    }
    Ok((nums, pivots))
}

/// Reads the bit-depth and resampling fields.
fn parse_depth_fields(reader: &mut BitVecReader, rpu: &mut RpuNal) -> (r: Result<(), DemuxError>)
    requires
        old(reader).wf(),
    ensures
        final(reader).wf(),
        final(reader).spec_bits() == old(reader).spec_bits(),
        match spec_parse_depth_fields(
            old(reader).spec_bits(),
            old(reader).spec_pos(),
            old(rpu)@,
        ) {
            Ok(hp) => r == Ok::<(), DemuxError>(()) && final(rpu)@ == hp.0 && final(reader).spec_pos() == hp.1,
            Err(e) => r == Err::<(), DemuxError>(e),
        },
{
    let bl = match reader.get_ue() {
        Ok(v) => v,
        Err(e) => {
            return Err(e);
        },
    };
    let el = match reader.get_ue() {
        Ok(v) => v,
        Err(e) => {
            return Err(e);
        },
    };
    let vdr = match reader.get_ue() {
        Ok(v) => v,
        Err(e) => {
            return Err(e);
        },
    };
    let spatial = match reader.get() {
        Ok(v) => v,
        Err(e) => {
            return Err(e);
        },
    };
    let reserved = match reader.get_n(3) {
        Ok(v) => v,
        Err(e) => {
            return Err(e);
        },
    };
    let el_spatial = match reader.get() {
        Ok(v) => v,
        Err(e) => {
            return Err(e);
        },
    };
    let disable = match reader.get() {
        Ok(v) => v,
        Err(e) => {
            return Err(e);
        },
    };
    proof {
        vstd::arithmetic::power2::lemma2_to64();
    }
    rpu.bl_bit_depth_minus8 = bl;
    rpu.el_bit_depth_minus8 = el;
    rpu.vdr_bit_depth_minus_8 = vdr;
    rpu.spatial_resampling_filter_flag = spatial;
    rpu.reserved_zero_3bits = reserved as u8;
    rpu.el_spatial_resampling_filter_flag = el_spatial;
    rpu.disable_residual_flag = disable;
    Ok(())
}

/// Reads the sequence-information block.
#[verifier::rlimit(100)]
#[verifier::spinoff_prover]
fn parse_seq_fields(reader: &mut BitVecReader, rpu: &mut RpuNal) -> (r: Result<(), DemuxError>)
    requires
        old(reader).wf(),
    ensures
        final(reader).wf(),
        final(reader).spec_bits() == old(reader).spec_bits(),
        match spec_parse_seq_fields(old(reader).spec_bits(), old(reader).spec_pos(), old(rpu)@) {
            Ok(hp) => r == Ok::<(), DemuxError>(()) && final(rpu)@ == hp.0 && final(reader).spec_pos() == hp.1,
            Err(e) => r == Err::<(), DemuxError>(e),
        },
{
    let chroma = match reader.get() {
        Ok(v) => v,
        Err(e) => {
            return Err(e);
        },
    };
    let cdt = match reader.get_n(2) {
        Ok(v) => v,
        Err(e) => {
            return Err(e);
        },
    };
    let denom = if cdt == 0 {
        match reader.get_ue() {
            Ok(v) => v,
            Err(e) => {
                return Err(e);
            },
        }
    } else {
        rpu.coefficient_log2_denom
    };
    let norm = match reader.get_n(2) {
        Ok(v) => v,
        Err(e) => {
            return Err(e);
        },
    };
    let range = match reader.get() {
        Ok(v) => v,
        Err(e) => {
            return Err(e);
        },
    };
    proof {
        vstd::arithmetic::power2::lemma2_to64();
    }
    rpu.chroma_resampling_explicit_filter_flag = chroma;
    rpu.coefficient_data_type = cdt as u8;
    rpu.coefficient_log2_denom = denom;
    rpu.vdr_rpu_normalized_idc = norm as u8;
    rpu.bl_video_full_range_flag = range;
    if rpu.rpu_format & 0x700 == 0 {
        parse_depth_fields(reader, rpu)
    } else {
        Ok(())
    }
}

/// Reads the two partition counts.
fn parse_partitions(reader: &mut BitVecReader, rpu: &mut RpuNal) -> (r: Result<(), DemuxError>)
    requires
        old(reader).wf(),
    ensures
        final(reader).wf(),
        final(reader).spec_bits() == old(reader).spec_bits(),
        match spec_parse_partitions(old(reader).spec_bits(), old(reader).spec_pos(), old(rpu)@) {
            Ok(hp) => r == Ok::<(), DemuxError>(()) && final(rpu)@ == hp.0 && final(reader).spec_pos() == hp.1,
            Err(e) => r == Err::<(), DemuxError>(e),
        },
{
    let x = match reader.get_ue() {
        Ok(v) => v,
        Err(e) => {
            return Err(e);
        },
    };
    let y = match reader.get_ue() {
        Ok(v) => v,
        Err(e) => {
            return Err(e);
        },
    };
    rpu.num_x_partitions_minus1 = x;
    rpu.num_y_partitions_minus1 = y;
    Ok(())
}

/// Reads the identifier block.
#[verifier::rlimit(100)]
#[verifier::spinoff_prover]
fn parse_id_fields(reader: &mut BitVecReader, rpu: &mut RpuNal) -> (r: Result<(), DemuxError>)
    requires
        old(reader).wf(),
    ensures
        final(reader).wf(),
        final(reader).spec_bits() == old(reader).spec_bits(),
        match spec_parse_id_fields(old(reader).spec_bits(), old(reader).spec_pos(), old(rpu)@) {
            Ok(hp) => r == Ok::<(), DemuxError>(()) && final(rpu)@ == hp.0 && final(reader).spec_pos() == hp.1,
            Err(e) => r == Err::<(), DemuxError>(e),
        },
{
    if rpu.use_prev_vdr_rpu_flag {
        let prev = match reader.get_ue() {
            Ok(v) => v,
            Err(e) => {
                return Err(e);
            },
        };
        rpu.prev_vdr_rpu_id = prev;
        parse_partitions(reader, rpu)
    } else {
        let id = match reader.get_ue() {
            Ok(v) => v,
            Err(e) => {
                return Err(e);
            },
        };
        let mcs = match reader.get_ue() {
            Ok(v) => v,
            Err(e) => {
                return Err(e);
            },
        };
        let mcf = match reader.get_ue() {
            Ok(v) => v,
            Err(e) => {
                return Err(e);
            },
        };
        if rpu.bl_bit_depth_minus8 > 56 {
            return Err(DemuxError::Malformed);
        }
        let width = (rpu.bl_bit_depth_minus8 + 8) as usize;
        let cps = match parse_components(reader, width) {
            Ok(c) => c,
            Err(e) => {
                return Err(e);
            },
        };
        rpu.vdr_rpu_id = id;
        rpu.mapping_color_space = mcs;
        rpu.mapping_chroma_format_idc = mcf;
        rpu.num_pivots_minus_2 = cps.0;
        rpu.pred_pivot_value = cps.1;
        if rpu.rpu_format & 0x700 == 0 && !rpu.disable_residual_flag {
            let nlq = match reader.get_n(3) {
                Ok(v) => v,
                Err(e) => {
                    return Err(e);
                },
            };
            proof {
                vstd::arithmetic::power2::lemma2_to64();
            }
            rpu.nlq_method_idc = nlq as u8;
            rpu.nlq_num_pivots_minus2 = 0;
        }
        parse_partitions(reader, rpu)
    }
}

/// Reads the header fields present for `rpu_type == 2`.
#[verifier::rlimit(100)]
#[verifier::spinoff_prover]
fn parse_type2_fields(reader: &mut BitVecReader, rpu: &mut RpuNal) -> (r: Result<(), DemuxError>)
    requires
        old(reader).wf(),
    ensures
        final(reader).wf(),
        final(reader).spec_bits() == old(reader).spec_bits(),
        match spec_parse_type2_fields(
            old(reader).spec_bits(),
            old(reader).spec_pos(),
            old(rpu)@,
        ) {
            Ok(hp) => r == Ok::<(), DemuxError>(()) && final(rpu)@ == hp.0 && final(reader).spec_pos() == hp.1,
            Err(e) => r == Err::<(), DemuxError>(e),
        },
{
    let profile = match reader.get_n(4) {
        Ok(v) => v,
        Err(e) => {
            return Err(e);
        },
    };
    let level = match reader.get_n(4) {
        Ok(v) => v,
        Err(e) => {
            return Err(e);
        },
    };
    let seq_info = match reader.get() {
        Ok(v) => v,
        Err(e) => {
            return Err(e);
        },
    };
    proof {
        vstd::arithmetic::power2::lemma2_to64();
    }
    rpu.vdr_rpu_profile = profile as u8;
    rpu.vdr_rpu_level = level as u8;
    rpu.vdr_seq_info_present_flag = seq_info;
    if seq_info {
        match parse_seq_fields(reader, rpu) {
            Ok(_) => (),
            Err(e) => {
                return Err(e);
            },
        }
    }
    parse_dm_prev_fields(reader, rpu)
}

/// Reads the two presence flags, then the identifier block.
fn parse_dm_prev_fields(reader: &mut BitVecReader, rpu: &mut RpuNal) -> (r: Result<(), DemuxError>)
    requires
        old(reader).wf(),
    ensures
        final(reader).wf(),
        final(reader).spec_bits() == old(reader).spec_bits(),
        match spec_parse_dm_prev_fields(
            old(reader).spec_bits(),
            old(reader).spec_pos(),
            old(rpu)@,
        ) {
            Ok(hp) => r == Ok::<(), DemuxError>(()) && final(rpu)@ == hp.0 && final(reader).spec_pos() == hp.1,
            Err(e) => r == Err::<(), DemuxError>(e),
        },
{
    let dm = match reader.get() {
        Ok(v) => v,
        Err(e) => {
            return Err(e);
        },
    };
    let prev = match reader.get() {
        Ok(v) => v,
        Err(e) => {
            return Err(e);
        },
    };
    rpu.vdr_dm_metadata_present_flag = dm;
    rpu.use_prev_vdr_rpu_flag = prev;
    parse_id_fields(reader, rpu)
}

/// A fresh RPU record, every field zero, false or empty.
fn rpu_default() -> (r: RpuNal)
    ensures
        r@ == init_rpu_view(),
{
    let r = RpuNal {
        header_end: 0,
        rpu_nal_prefix: 0,
        rpu_type: 0,
        rpu_format: 0,
        vdr_rpu_profile: 0,
        vdr_rpu_level: 0,
        vdr_seq_info_present_flag: false,
        chroma_resampling_explicit_filter_flag: false,
        coefficient_data_type: 0,
        coefficient_log2_denom: 0,
        vdr_rpu_normalized_idc: 0,
        bl_video_full_range_flag: false,
        bl_bit_depth_minus8: 0,
        el_bit_depth_minus8: 0,
        vdr_bit_depth_minus_8: 0,
        spatial_resampling_filter_flag: false,
        reserved_zero_3bits: 0,
        el_spatial_resampling_filter_flag: false,
        disable_residual_flag: false,
        vdr_dm_metadata_present_flag: false,
        use_prev_vdr_rpu_flag: false,
        prev_vdr_rpu_id: 0,
        vdr_rpu_id: 0,
        mapping_color_space: 0,
        mapping_chroma_format_idc: 0,
        num_pivots_minus_2: Vec::new(),
        pred_pivot_value: Vec::new(),
        nlq_method_idc: 0,
        nlq_num_pivots_minus2: 0,
        num_x_partitions_minus1: 0,
        num_y_partitions_minus1: 0,
        vdr_rpu_data: None,
        nlq_data: None,
        vdr_dm_data: None,
        rpu_data_crc32: 0,
    };
    proof {
        assert(r.num_pivots_minus_2@ =~= Seq::<u64>::empty());
        assert(r.pred_pivot_value.deep_view() =~~= Seq::<Seq<u64>>::empty());
    }
    r
}

/// Decodes the RPU header from the reader's position and checks the
/// RPU invariants; a header that breaks them is `Malformed`.
pub fn rpu_data_header(reader: &mut BitVecReader) -> (r: Result<RpuNal, DemuxError>)
    requires
        old(reader).wf(),
    ensures
        final(reader).wf(),
        final(reader).spec_bits() == old(reader).spec_bits(),
        match spec_parse_header_validated(old(reader).spec_bits(), old(reader).spec_pos()) {
            Ok(hp) => r matches Ok(nal) && nal@ == hp.0 && final(reader).spec_pos() == hp.1,
            Err(e) => r matches Err(e2) && e2 == e,
        },
{
    let mut rpu = rpu_default();
    let prefix = match reader.get_n(8) {
        Ok(v) => v,
        Err(e) => {
            return Err(e);
        },
    };
    proof {
        vstd::arithmetic::power2::lemma2_to64();
    }
    rpu.rpu_nal_prefix = prefix as u8;
    if prefix == 25 {
        let ty = match reader.get_n(6) {
            Ok(v) => v,
            Err(e) => {
                return Err(e);
            },
        };
        let fmt = match reader.get_n(11) {
            Ok(v) => v,
            Err(e) => {
                return Err(e);
            },
        };
        rpu.rpu_type = ty as u8;
        rpu.rpu_format = fmt as u16;
        if ty == 2 {
            match parse_type2_fields(reader, &mut rpu) {
                Ok(_) => (),
                Err(e) => {
                    return Err(e);
                },
            }
        }
    }
    if !rpu.validate() {
        return Err(DemuxError::Malformed);
    }
    Ok(rpu)
}

/// A signed integer part when coefficients are integer-typed, then the
/// fixed-width fractional part: the unit both mapping payloads are made
/// of.
pub open spec fn spec_se_pair(bits: Seq<bool>, pos: int, cdt: u8, dlen: int) -> Result<
    int,
    DemuxError,
> {
    let int_r = if cdt == 0 {
        match spec_read_se(bits, pos) {
            Ok(v) => Ok(v.1),
            Err(e) => Err(e),
        }
    } else {
        Ok(pos)
    };
    match int_r {
        Ok(p) => match spec_read_n(bits, p, dlen) {
            Ok(v) => Ok(v.1),
            Err(e) => Err(e),
        },
        Err(e) => Err(e),
    }
}

/// An unsigned integer part when coefficients are integer-typed, then
/// the fixed-width fractional part.
pub open spec fn spec_ue_pair(bits: Seq<bool>, pos: int, cdt: u8, dlen: int) -> Result<
    int,
    DemuxError,
> {
    let int_r = if cdt == 0 {
        match spec_read_ue(bits, pos) {
            Ok(v) => Ok(v.1),
            Err(e) => Err(e),
        }
    } else {
        Ok(pos)
    };
    match int_r {
        Ok(p) => match spec_read_n(bits, p, dlen) {
            Ok(v) => Ok(v.1),
            Err(e) => Err(e),
        },
        Err(e) => Err(e),
    }
}

/// `count` polynomial coefficient pairs.
pub open spec fn spec_poly_coefs(bits: Seq<bool>, pos: int, count: int, cdt: u8, dlen: int) -> Result<
    int,
    DemuxError,
>
    decreases count,
{
    if count <= 0 {
        Ok(pos)
    } else {
        match spec_se_pair(bits, pos, cdt, dlen) {
            Ok(p) => spec_poly_coefs(bits, p, count - 1, cdt, dlen),
            Err(e) => Err(e),
        }
    }
}

/// `j` MMR coefficient pairs of one row.
pub open spec fn spec_mmr_row(bits: Seq<bool>, pos: int, j: int, cdt: u8, dlen: int) -> Result<
    int,
    DemuxError,
>
    decreases j,
{
    if j <= 0 {
        Ok(pos)
    } else {
        match spec_se_pair(bits, pos, cdt, dlen) {
            Ok(p) => spec_mmr_row(bits, p, j - 1, cdt, dlen),
            Err(e) => Err(e),
        }
    }
}

/// `rows` rows of seven MMR coefficient pairs.
pub open spec fn spec_mmr_rows(bits: Seq<bool>, pos: int, rows: int, cdt: u8, dlen: int) -> Result<
    int,
    DemuxError,
>
    decreases rows,
{
    if rows <= 0 {
        Ok(pos)
    } else {
        match spec_mmr_row(bits, pos, 7, cdt, dlen) {
            Ok(p) => spec_mmr_rows(bits, p, rows - 1, cdt, dlen),
            Err(e) => Err(e),
        }
    }
}

/// One linear-interpolation value: an unsigned integer part when
/// coefficients are integer-typed, then the fractional part.
pub open spec fn spec_li_value(bits: Seq<bool>, pos: int, cdt: u8, dlen: int) -> Result<
    int,
    DemuxError,
> {
    spec_ue_pair(bits, pos, cdt, dlen)
}

/// The mapping parameters of one pivot: a polynomial (`mapping_idc`
/// zero), an MMR matrix (`mapping_idc` one, order at most two), or
/// nothing.
pub open spec fn spec_map_param(
    bits: Seq<bool>,
    pos: int,
    idc: u64,
    is_last: bool,
    cdt: u8,
    dlen: int,
) -> Result<int, DemuxError> {
    if idc == 0 {
        match spec_read_ue(bits, pos) {
            Err(e) => Err(e),
            Ok(om) => {
                let li_r = if om.0 == 0 {
                    spec_read_bit(bits, om.1)
                } else {
                    Ok((false, om.1))
                };
                match li_r {
                    Err(e) => Err(e),
                    Ok(li) => {
                        if om.0 == 0 && li.0 {
                            match spec_li_value(bits, li.1, cdt, dlen) {
                                Err(e) => Err(e),
                                Ok(p) => if is_last {
                                    spec_li_value(bits, p, cdt, dlen)
                                } else {
                                    Ok(p)
                                },
                            }
                        } else {
                            spec_poly_coefs(bits, li.1, om.0 + 2, cdt, dlen)
                        }
                    },
                }
            },
        }
    } else if idc == 1 {
        match spec_read_n(bits, pos, 2) {
            Err(e) => Err(e),
            Ok(om) => {
                if om.0 > 2 {
                    Err(DemuxError::Malformed)
                } else {
                    match spec_se_pair(bits, om.1, cdt, dlen) {
                        Err(e) => Err(e),
                        Ok(p) => spec_mmr_rows(bits, p, om.0 as int + 1, cdt, dlen),
                    }
                }
            },
        }
    } else {
        Ok(pos)
    }
}

/// The mapping reads for the pivots `idx..count` of one component,
/// with `preds` parameter sets decoded so far in this component.
pub open spec fn spec_map_pivot_loop(
    bits: Seq<bool>,
    pos: int,
    idx: int,
    count: int,
    np: u64,
    preds: int,
    cdt: u8,
    dlen: int,
) -> Result<int, DemuxError>
    decreases count - idx,
{
    if idx >= count {
        Ok(pos)
    } else {
        match spec_read_ue(bits, pos) {
            Err(e) => Err(e),
            Ok(idc) => {
                let pf_r = if preds >= 1 {
                    spec_read_bit(bits, idc.1)
                } else {
                    Ok((false, idc.1))
                };
                match pf_r {
                    Err(e) => Err(e),
                    Ok(pf) => {
                        if !pf.0 {
                            match spec_map_param(bits, pf.1, idc.0, idx == np, cdt, dlen) {
                                Err(e) => Err(e),
                                // the counter only gates the one-or-more and
                                // more-than-one tests, so it saturates at two
                                Ok(p) => spec_map_pivot_loop(
                                    bits,
                                    p,
                                    idx + 1,
                                    count,
                                    np,
                                    if preds < 2 {
                                        preds + 1
                                    } else {
                                        preds
                                    },
                                    cdt,
                                    dlen,
                                ),
                            }
                        } else if preds > 1 {
                            match spec_read_ue(bits, pf.1) {
                                Err(e) => Err(e),
                                Ok(d) => spec_map_pivot_loop(
                                    bits,
                                    d.1,
                                    idx + 1,
                                    count,
                                    np,
                                    preds,
                                    cdt,
                                    dlen,
                                ),
                            }
                        } else {
                            spec_map_pivot_loop(bits, pf.1, idx + 1, count, np, preds, cdt, dlen)
                        }
                    },
                }
            },
        }
    }
}

/// The mapping reads for the components `cmp..3`.
pub open spec fn spec_map_components(
    bits: Seq<bool>,
    pos: int,
    cmp: int,
    num_pivots: Seq<u64>,
    cdt: u8,
    dlen: int,
) -> Result<int, DemuxError>
    decreases 3 - cmp,
{
    if cmp >= 3 {
        Ok(pos)
    } else {
        let np = if 0 <= cmp < num_pivots.len() {
            num_pivots[cmp]
        } else {
            0
        };
        match spec_map_pivot_loop(bits, pos, 0, np as int + 1, np, 0, cdt, dlen) {
            Err(e) => Err(e),
            Ok(p) => spec_map_components(bits, p, cmp + 1, num_pivots, cdt, dlen),
        }
    }
}

/// The coefficient width of the mapping payloads; anything but the two
/// defined coefficient types, or a width beyond the machine word, is
/// `Malformed`.
pub open spec fn spec_coef_len(h: RpuNalView) -> Result<int, DemuxError> {
    if h.coefficient_data_type == 0 {
        if h.coefficient_log2_denom <= 64 {
            Ok(h.coefficient_log2_denom as int)
        } else {
            Err(DemuxError::Malformed)
        }
    } else if h.coefficient_data_type == 1 {
        Ok(32)
    } else {
        Err(DemuxError::Malformed)
    }
}

/// The whole mapping payload.
pub open spec fn spec_rpu_data_mapping(bits: Seq<bool>, pos: int, h: RpuNalView) -> Result<
    int,
    DemuxError,
> {
    match spec_coef_len(h) {
        Err(e) => Err(e),
        Ok(dlen) => spec_map_components(
            bits,
            pos,
            0,
            h.num_pivots_minus_2,
            h.coefficient_data_type,
            dlen,
        ),
    }
}

/// The pivot count of component `c`: its pivot table has this many
/// entries (tables absent from a short record count as zero pivots).
pub open spec fn pivot_row_count(nps: Seq<u64>, c: int) -> int {
    (if 0 <= c < nps.len() {
        nps[c] as int
    } else {
        0
    }) + 1
}

/// The running per-component predictor count before pivot `p`,
/// saturated at two (only the one-or-more and more-than-one tests
/// consult it).
pub open spec fn preds_capped(pf: Seq<bool>, p: int) -> int
    decreases p,
{
    if p <= 0 {
        0
    } else {
        let prev = preds_capped(pf, p - 1);
        if !pf[p - 1] && prev < 2 {
            prev + 1
        } else {
            prev
        }
    }
}

/// The count before `p` only reads flags before `p`.
pub proof fn lemma_preds_capped_push(pf: Seq<bool>, x: bool, p: int)
    requires
        0 <= p <= pf.len(),
    ensures
        preds_capped(pf.push(x), p) == preds_capped(pf, p),
    decreases p,
{
    if p > 0 {
        lemma_preds_capped_push(pf, x, p - 1);
        assert(pf.push(x)[p - 1] == pf[p - 1]);
    }
}

/// The MMR matrix of one pivot: `order + 2` rows of seven coefficients
/// where an MMR parameter set was decoded, empty otherwise.
pub open spec fn mmr_entry_shape(
    coef: Seq<Seq<u64>>,
    coef_int: Seq<Seq<i64>>,
    active: bool,
    order: u8,
) -> bool {
    &&& coef.len() == (if active {
        order as int + 2
    } else {
        0
    })
    &&& coef_int.len() == coef.len()
    &&& forall|t: int| 0 <= t < coef.len() ==> #[trigger] coef[t].len() == 7
    &&& forall|t: int| 0 <= t < coef_int.len() ==> #[trigger] coef_int[t].len() == 7
}

/// One component of a decoded mapping record: every per-pivot array
/// holds one entry per pivot, the stored predictor counts record the
/// running (saturated) count, a stored flag can be set only where the
/// count had reached one, and each pivot's MMR matrix has its decoded
/// shape.
pub open spec fn mapping_component_shape(d: VdrRpuData, c: int, count: int) -> bool {
    &&& d.mapping_idc@[c]@.len() == count
    &&& d.mapping_param_pred_flag@[c]@.len() == count
    &&& d.num_mapping_param_predictors@[c]@.len() == count
    &&& d.diff_pred_part_idx_mapping_minus1@[c]@.len() == count
    &&& d.poly_order_minus1@[c]@.len() == count
    &&& d.linear_interp_flag@[c]@.len() == count
    &&& d.pred_linear_interp_value_int@[c]@.len() == count
    &&& d.pred_linear_interp_value@[c]@.len() == count
    &&& d.poly_coef_int@[c]@.len() == count
    &&& d.poly_coef@[c]@.len() == count
    &&& d.mmr_order_minus1@[c]@.len() == count
    &&& d.mmr_constant_int@[c]@.len() == count
    &&& d.mmr_constant@[c]@.len() == count
    &&& d.mmr_coef_int@[c]@.len() == count
    &&& d.mmr_coef@[c]@.len() == count
    &&& forall|p: int|
        0 <= p < count ==> #[trigger] d.num_mapping_param_predictors@[c]@[p] == preds_capped(
            d.mapping_param_pred_flag@[c]@,
            p,
        )
    &&& forall|p: int|
        0 <= p < count ==> (#[trigger] d.mapping_param_pred_flag@[c]@[p] ==> preds_capped(
            d.mapping_param_pred_flag@[c]@,
            p,
        ) >= 1)
    &&& forall|p: int|
        0 <= p < count ==> mmr_entry_shape(
            #[trigger] d.mmr_coef@[c]@[p].deep_view(),
            d.mmr_coef_int@[c]@[p].deep_view(),
            !d.mapping_param_pred_flag@[c]@[p] && d.mapping_idc@[c]@[p] == 1,
            d.mmr_order_minus1@[c]@[p],
        )
}

/// A decoded mapping record has three components, each shaped to its
/// pivot count.
pub open spec fn mapping_shape_ok(d: VdrRpuData, nps: Seq<u64>) -> bool {
    &&& d.mapping_idc@.len() == 3
    &&& d.mapping_param_pred_flag@.len() == 3
    &&& d.num_mapping_param_predictors@.len() == 3
    &&& d.diff_pred_part_idx_mapping_minus1@.len() == 3
    &&& d.poly_order_minus1@.len() == 3
    &&& d.linear_interp_flag@.len() == 3
    &&& d.pred_linear_interp_value_int@.len() == 3
    &&& d.pred_linear_interp_value@.len() == 3
    &&& d.poly_coef_int@.len() == 3
    &&& d.poly_coef@.len() == 3
    &&& d.mmr_order_minus1@.len() == 3
    &&& d.mmr_constant_int@.len() == 3
    &&& d.mmr_constant@.len() == 3
    &&& d.mmr_coef_int@.len() == 3
    &&& d.mmr_coef@.len() == 3
    &&& forall|c: int|
        0 <= c < 3 ==> #[trigger] mapping_component_shape(d, c, pivot_row_count(nps, c))
}

/// A decoded NLQ record: one row per pivot, three entries (one per
/// component) in every row.
pub open spec fn nlq_shape_ok(d: NlqData, rows: int) -> bool {
    &&& d.num_nlq_param_predictors@.len() == rows
    &&& d.nlq_param_pred_flag@.len() == rows
    &&& d.diff_pred_part_idx_nlq_minus1@.len() == rows
    &&& d.nlq_offset@.len() == rows
    &&& d.vdr_in_max_int@.len() == rows
    &&& d.vdr_in_max@.len() == rows
    &&& d.linear_deadzone_slope_int@.len() == rows
    &&& d.linear_deadzone_slope@.len() == rows
    &&& d.linear_deadzone_threshold_int@.len() == rows
    &&& d.linear_deadzone_threshold@.len() == rows
    &&& forall|p: int| 0 <= p < rows ==> #[trigger] d.num_nlq_param_predictors@[p]@.len() == 3
    &&& forall|p: int| 0 <= p < rows ==> #[trigger] d.nlq_param_pred_flag@[p]@.len() == 3
    &&& forall|p: int| 0 <= p < rows ==> #[trigger] d.diff_pred_part_idx_nlq_minus1@[p]@.len() == 3
    &&& forall|p: int| 0 <= p < rows ==> #[trigger] d.nlq_offset@[p]@.len() == 3
    &&& forall|p: int| 0 <= p < rows ==> #[trigger] d.vdr_in_max_int@[p]@.len() == 3
    &&& forall|p: int| 0 <= p < rows ==> #[trigger] d.vdr_in_max@[p]@.len() == 3
    &&& forall|p: int| 0 <= p < rows ==> #[trigger] d.linear_deadzone_slope_int@[p]@.len() == 3
    &&& forall|p: int| 0 <= p < rows ==> #[trigger] d.linear_deadzone_slope@[p]@.len() == 3
    &&& forall|p: int| 0 <= p < rows ==> #[trigger] d.linear_deadzone_threshold_int@[p]@.len() == 3
    &&& forall|p: int| 0 <= p < rows ==> #[trigger] d.linear_deadzone_threshold@[p]@.len() == 3
}

/// Reads one signed coefficient pair: the integer part when the
/// coefficients are integer-typed, then the fractional part.
fn read_se_pair(reader: &mut BitVecReader, cdt: u8, dlen: usize) -> (r: Result<
    (i64, u64),
    DemuxError,
>)
    requires
        old(reader).wf(),
        dlen <= 64,
    ensures
        final(reader).wf(),
        final(reader).spec_bits() == old(reader).spec_bits(),
        match spec_se_pair(old(reader).spec_bits(), old(reader).spec_pos(), cdt, dlen as int) {
            Ok(p) => r is Ok && final(reader).spec_pos() == p,
            Err(e) => r matches Err(e2) && e2 == e,
        },
{
    let iv: i64 = if cdt == 0 {
        match reader.get_se() {
            Ok(v) => v,
            Err(e) => {
                return Err(e);
            },
        }
    } else {
        0
    };
    let fv = match reader.get_n(dlen) {
        Ok(v) => v,
        Err(e) => {
            return Err(e);
        },
    };
    Ok((iv, fv))
}

/// Reads one unsigned coefficient pair.
fn read_ue_pair(reader: &mut BitVecReader, cdt: u8, dlen: usize) -> (r: Result<
    (u64, u64),
    DemuxError,
>)
    requires
        old(reader).wf(),
        dlen <= 64,
    ensures
        final(reader).wf(),
        final(reader).spec_bits() == old(reader).spec_bits(),
        match spec_ue_pair(old(reader).spec_bits(), old(reader).spec_pos(), cdt, dlen as int) {
            Ok(p) => r is Ok && final(reader).spec_pos() == p,
            Err(e) => r matches Err(e2) && e2 == e,
        },
{
    let iv: u64 = if cdt == 0 {
        match reader.get_ue() {
            Ok(v) => v,
            Err(e) => {
                return Err(e);
            },
        }
    } else {
        0
    };
    let fv = match reader.get_n(dlen) {
        Ok(v) => v,
        Err(e) => {
            return Err(e);
        },
    };
    Ok((iv, fv))
}

/// The mapping parameters decoded for one pivot.
struct MapParamVals {
    poly_order_minus1: u64,
    linear_interp_flag: bool,
    pred_linear_interp_value_int: u64,
    pred_linear_interp_value: u64,
    poly_coef_int: i64,
    poly_coef: u64,
    mmr_order_minus1: u8,
    mmr_constant_int: i64,
    mmr_constant: u64,
    mmr_coef_int: Vec<Vec<i64>>,
    mmr_coef: Vec<Vec<u64>>,
}

fn map_param_vals_default() -> (r: MapParamVals)
    ensures
        r.mmr_coef@.len() == 0,
        r.mmr_coef_int@.len() == 0,
        r.mmr_order_minus1 == 0,
{
    let r = MapParamVals {
        poly_order_minus1: 0,
        linear_interp_flag: false,
        pred_linear_interp_value_int: 0,
        pred_linear_interp_value: 0,
        poly_coef_int: 0,
        poly_coef: 0,
        mmr_order_minus1: 0,
        mmr_constant_int: 0,
        mmr_constant: 0,
        mmr_coef_int: Vec::new(),
        mmr_coef: Vec::new(),
    };
    proof {
        assert(r.mmr_coef@ =~= Seq::<Vec<u64>>::empty());
        assert(r.mmr_coef_int@ =~= Seq::<Vec<i64>>::empty());
    }
    r
}

/// Reads the mapping parameters of one pivot: polynomial, MMR, or
/// nothing, by `mapping_idc`.
fn read_map_param(reader: &mut BitVecReader, idc: u64, is_last: bool, cdt: u8, dlen: usize) -> (r:
    Result<MapParamVals, DemuxError>)
    requires
        old(reader).wf(),
        dlen <= 64,
    ensures
        final(reader).wf(),
        final(reader).spec_bits() == old(reader).spec_bits(),
        match spec_map_param(
            old(reader).spec_bits(),
            old(reader).spec_pos(),
            idc,
            is_last,
            cdt,
            dlen as int,
        ) {
            Ok(p) => r matches Ok(c) && final(reader).spec_pos() == p && mmr_entry_shape(
                c.mmr_coef.deep_view(),
                c.mmr_coef_int.deep_view(),
                idc == 1,
                c.mmr_order_minus1,
            ),
            Err(e) => r matches Err(e2) && e2 == e,
        },
{
    let mut out = map_param_vals_default();
    if idc == 0 {
        let om = match reader.get_ue() {
            Ok(v) => v,
            Err(e) => {
                return Err(e);
            },
        };
        out.poly_order_minus1 = om;
        let li = if om == 0 {
            match reader.get() {
                Ok(v) => v,
                Err(e) => {
                    return Err(e);
                },
            }
        } else {
            false
        };
        out.linear_interp_flag = li;
        if om == 0 && li {
            let v1 = match read_ue_pair(reader, cdt, dlen) {
                Ok(v) => v,
                Err(e) => {
                    return Err(e);
                },
            };
            out.pred_linear_interp_value_int = v1.0;
            out.pred_linear_interp_value = v1.1;
            if is_last {
                let v2 = match read_ue_pair(reader, cdt, dlen) {
                    Ok(v) => v,
                    Err(e) => {
                        return Err(e);
                    },
                };
                out.pred_linear_interp_value_int = v2.0;
                out.pred_linear_interp_value = v2.1;
            }
            proof {
                assert(out.mmr_coef@.len() == 0);
                assert(out.mmr_coef_int@.len() == 0);
                assert(out.mmr_coef.deep_view() =~= Seq::<Seq<u64>>::empty());
                assert(out.mmr_coef_int.deep_view() =~= Seq::<Seq<i64>>::empty());
            }
            Ok(out)
        } else {
            // om + 2 coefficient pairs; om + 1 cannot overflow since an
            // Exp-Golomb value is at most u64::MAX - 1
            let ghost bits0 = reader.spec_bits();
            let ghost fpos = old(reader).spec_pos();
            let mut i: u64 = 0;
            loop
                invariant_except_break
                    reader.wf(),
                    reader.spec_bits() == bits0,
                    bits0 == old(reader).spec_bits(),
                    om <= u64::MAX - 1,
                    dlen <= 64,
                    0 <= i <= om + 1,
                    fpos == old(reader).spec_pos(),
                    out.mmr_coef@.len() == 0,
                    out.mmr_coef_int@.len() == 0,
                    spec_map_param(bits0, fpos, idc, is_last, cdt, dlen as int)
                        == spec_poly_coefs(
                        bits0,
                        reader.spec_pos(),
                        om + 2 - i,
                        cdt,
                        dlen as int,
                    ),
                ensures
                    reader.wf(),
                    reader.spec_bits() == bits0,
                    out.mmr_coef@.len() == 0,
                    out.mmr_coef_int@.len() == 0,
                    spec_map_param(bits0, fpos, idc, is_last, cdt, dlen as int) == Ok::<
                        int,
                        DemuxError,
                    >(reader.spec_pos()),
                decreases om + 1 - i,
            {
                let cp = match read_se_pair(reader, cdt, dlen) {
                    Ok(v) => v,
                    Err(e) => {
                        return Err(e);
                    },
                };
                out.poly_coef_int = cp.0;
                out.poly_coef = cp.1;
                if i == om + 1 {
                    proof {
                        assert(spec_poly_coefs(bits0, reader.spec_pos(), 0, cdt, dlen as int)
                            == Ok::<int, DemuxError>(reader.spec_pos()));
                    }
                    break ;
                }
                i += 1;
            }
            proof {
                assert(out.mmr_coef@.len() == 0);
                assert(out.mmr_coef_int@.len() == 0);
                assert(out.mmr_coef.deep_view() =~= Seq::<Seq<u64>>::empty());
                assert(out.mmr_coef_int.deep_view() =~= Seq::<Seq<i64>>::empty());
            }
            Ok(out)
        }
    } else if idc == 1 {
        let om2 = match reader.get_n(2) {
            Ok(v) => v,
            Err(e) => {
                return Err(e);
            },
        };
        if om2 > 2 {
            return Err(DemuxError::Malformed);
        }
        out.mmr_order_minus1 = om2 as u8;
        let c = match read_se_pair(reader, cdt, dlen) {
            Ok(v) => v,
            Err(e) => {
                return Err(e);
            },
        };
        out.mmr_constant_int = c.0;
        out.mmr_constant = c.1;
        // row zero is never decoded from the stream; it stays zero, as
        // in the serialized matrix layout
        let zero_int_row: Vec<i64> = vec![0, 0, 0, 0, 0, 0, 0];
        let zero_row: Vec<u64> = vec![0, 0, 0, 0, 0, 0, 0];
        proof {
        assert(zero_int_row@.len() == 7);
        assert(zero_row@.len() == 7);
        }
        out.mmr_coef_int.push(zero_int_row);
        out.mmr_coef.push(zero_row);
        let rows: u64 = om2 + 1;
        let ghost bits0 = reader.spec_bits();
        let ghost fpos = old(reader).spec_pos();
        let mut row: u64 = 0;
        while row < rows
            invariant
                reader.wf(),
                reader.spec_bits() == bits0,
                bits0 == old(reader).spec_bits(),
                row <= rows <= 3,
                dlen <= 64,
                fpos == old(reader).spec_pos(),
                out.mmr_order_minus1 == om2,
                rows == om2 + 1,
                out.mmr_coef@.len() == row + 1,
                out.mmr_coef_int@.len() == row + 1,
                forall|t: int|
                    0 <= t < out.mmr_coef@.len() ==> #[trigger] out.mmr_coef@[t]@.len() == 7,
                forall|t: int|
                    0 <= t < out.mmr_coef_int@.len() ==> #[trigger] out.mmr_coef_int@[t]@.len()
                        == 7,
                spec_map_param(bits0, fpos, idc, is_last, cdt, dlen as int) == spec_mmr_rows(
                    bits0,
                    reader.spec_pos(),
                    (rows - row) as int,
                    cdt,
                    dlen as int,
                ),
            decreases rows - row,
        {
            let mut coef_int_row: Vec<i64> = Vec::new();
            let mut coef_row: Vec<u64> = Vec::new();
            let mut j: u64 = 0;
            while j < 7
                invariant
                    reader.wf(),
                    reader.spec_bits() == bits0,
                    bits0 == old(reader).spec_bits(),
                    j <= 7,
                    row < rows <= 3,
                    dlen <= 64,
                    fpos == old(reader).spec_pos(),
                    coef_int_row@.len() == j,
                    coef_row@.len() == j,
                    spec_map_param(bits0, fpos, idc, is_last, cdt, dlen as int) == (
                    match spec_mmr_row(bits0, reader.spec_pos(), 7 - j, cdt, dlen as int) {
                        Ok(p) => spec_mmr_rows(bits0, p, (rows - row - 1) as int, cdt, dlen as int),
                        Err(e) => Err::<int, DemuxError>(e),
                    }),
                decreases 7 - j,
            {
                let cp = match read_se_pair(reader, cdt, dlen) {
                    Ok(v) => v,
                    Err(e) => {
                        return Err(e);
                    },
                };
                coef_int_row.push(cp.0);
                coef_row.push(cp.1);
                j += 1;
            }
            proof {
                assert(spec_mmr_row(bits0, reader.spec_pos(), 0, cdt, dlen as int) == Ok::<
                    int,
                    DemuxError,
                >(reader.spec_pos()));
            }
            out.mmr_coef_int.push(coef_int_row);
            out.mmr_coef.push(coef_row);
            row += 1;
        }
        proof {
            assert(mmr_entry_shape(
                out.mmr_coef.deep_view(),
                out.mmr_coef_int.deep_view(),
                idc == 1,
                out.mmr_order_minus1,
            )) by {
                assert(out.mmr_coef.deep_view().len() == out.mmr_coef@.len());
                assert(out.mmr_coef_int.deep_view().len() == out.mmr_coef_int@.len());
                assert forall|t: int|
                    0 <= t < out.mmr_coef.deep_view().len() implies #[trigger] out.mmr_coef.deep_view()[t].len()
                    == 7 by {
                    assert(out.mmr_coef.deep_view()[t] == out.mmr_coef@[t].deep_view());
                    assert(out.mmr_coef@[t].deep_view().len() == out.mmr_coef@[t]@.len());
                    assert(out.mmr_coef@[t]@.len() == 7);
                }
                assert forall|t: int|
                    0 <= t < out.mmr_coef_int.deep_view().len() implies #[trigger] out.mmr_coef_int.deep_view()[t].len()
                    == 7 by {
                    assert(out.mmr_coef_int.deep_view()[t] == out.mmr_coef_int@[t].deep_view());
                    assert(out.mmr_coef_int@[t].deep_view().len() == out.mmr_coef_int@[t]@.len());
                    assert(out.mmr_coef_int@[t]@.len() == 7);
                }
            }
        }
        Ok(out)
    } else {
        proof {
            assert(out.mmr_coef@.len() == 0);
            assert(out.mmr_coef_int@.len() == 0);
            assert(out.mmr_coef.deep_view() =~= Seq::<Seq<u64>>::empty());
            assert(out.mmr_coef_int.deep_view() =~= Seq::<Seq<i64>>::empty());
        }
        Ok(out)
    }
}

/// Decodes the mapping payload. The cursor movement, the success
/// condition and the shape of the decoded record are pinned; the
/// coefficient values are carried but never re-serialized (the
/// serializer splices the original bits).
#[verifier::rlimit(100)]
#[verifier::spinoff_prover]
pub fn rpu_data_mapping(reader: &mut BitVecReader, rpu_nal: &RpuNal) -> (r: Result<
    VdrRpuData,
    DemuxError,
>)
    requires
        old(reader).wf(),
    ensures
        final(reader).wf(),
        final(reader).spec_bits() == old(reader).spec_bits(),
        match spec_rpu_data_mapping(old(reader).spec_bits(), old(reader).spec_pos(), rpu_nal@) {
            Ok(p) => r matches Ok(d) && final(reader).spec_pos() == p && mapping_shape_ok(
                d,
                rpu_nal@.num_pivots_minus_2,
            ),
            Err(e) => r matches Err(e2) && e2 == e,
        },
{
    let cdt = rpu_nal.coefficient_data_type;
    let dlen: usize;
    if cdt == 0 {
        if rpu_nal.coefficient_log2_denom > 64 {
            return Err(DemuxError::Malformed);
        }
        dlen = rpu_nal.coefficient_log2_denom as usize;
    } else if cdt == 1 {
        dlen = 32;
    } else {
        return Err(DemuxError::Malformed);
    }
    let mut data = VdrRpuData {
        mapping_idc: Vec::new(),
        mapping_param_pred_flag: Vec::new(),
        num_mapping_param_predictors: Vec::new(),
        diff_pred_part_idx_mapping_minus1: Vec::new(),
        poly_order_minus1: Vec::new(),
        linear_interp_flag: Vec::new(),
        pred_linear_interp_value_int: Vec::new(),
        pred_linear_interp_value: Vec::new(),
        poly_coef_int: Vec::new(),
        poly_coef: Vec::new(),
        mmr_order_minus1: Vec::new(),
        mmr_constant_int: Vec::new(),
        mmr_constant: Vec::new(),
        mmr_coef_int: Vec::new(),
        mmr_coef: Vec::new(),
    };
    let ghost bits0 = reader.spec_bits();
    let ghost pos0 = reader.spec_pos();
    let ghost nps = rpu_nal@.num_pivots_minus_2;
    let mut cmp: usize = 0;
    while cmp < 3
        invariant
            reader.wf(),
            reader.spec_bits() == bits0,
            bits0 == old(reader).spec_bits(),
            pos0 == old(reader).spec_pos(),
            cmp <= 3,
            dlen <= 64,
            nps == rpu_nal@.num_pivots_minus_2,
            cdt == rpu_nal.coefficient_data_type,
            data.mapping_idc@.len() == cmp,
            data.mapping_param_pred_flag@.len() == cmp,
            data.num_mapping_param_predictors@.len() == cmp,
            data.diff_pred_part_idx_mapping_minus1@.len() == cmp,
            data.poly_order_minus1@.len() == cmp,
            data.linear_interp_flag@.len() == cmp,
            data.pred_linear_interp_value_int@.len() == cmp,
            data.pred_linear_interp_value@.len() == cmp,
            data.poly_coef_int@.len() == cmp,
            data.poly_coef@.len() == cmp,
            data.mmr_order_minus1@.len() == cmp,
            data.mmr_constant_int@.len() == cmp,
            data.mmr_constant@.len() == cmp,
            data.mmr_coef_int@.len() == cmp,
            data.mmr_coef@.len() == cmp,
            forall|c: int|
                0 <= c < cmp ==> #[trigger] mapping_component_shape(
                    data,
                    c,
                    pivot_row_count(nps, c),
                ),
            spec_rpu_data_mapping(bits0, pos0, rpu_nal@) == spec_map_components(
                bits0,
                reader.spec_pos(),
                cmp as int,
                nps,
                cdt,
                dlen as int,
            ),
        decreases 3 - cmp,
    {
        let ghost data_pre = data;
        let np: u64 = if cmp < rpu_nal.num_pivots_minus_2.len() {
            rpu_nal.num_pivots_minus_2[cmp]
        } else {
            0
        };
        let mut idc_row: Vec<u64> = Vec::new();
        let mut pf_row: Vec<bool> = Vec::new();
        let mut npred_row: Vec<u64> = Vec::new();
        let mut diff_row: Vec<u64> = Vec::new();
        let mut po_row: Vec<u64> = Vec::new();
        let mut li_row: Vec<bool> = Vec::new();
        let mut pliv_int_row: Vec<u64> = Vec::new();
        let mut pliv_row: Vec<u64> = Vec::new();
        let mut pc_int_row: Vec<i64> = Vec::new();
        let mut pc_row: Vec<u64> = Vec::new();
        let mut mo_row: Vec<u8> = Vec::new();
        let mut mc_int_row: Vec<i64> = Vec::new();
        let mut mc_row: Vec<u64> = Vec::new();
        let mut mcoef_int_row: Vec<Vec<Vec<i64>>> = Vec::new();
        let mut mcoef_row: Vec<Vec<Vec<u64>>> = Vec::new();
        proof {
            assert(np == (if 0 <= cmp < nps.len() {
                nps[cmp as int]
            } else {
                0u64
            }));
        }
        let mut idx: u64 = 0;
        let mut preds: u64 = 0;
        loop
            invariant_except_break
                reader.wf(),
                reader.spec_bits() == bits0,
                bits0 == old(reader).spec_bits(),
                pos0 == old(reader).spec_pos(),
                0 <= idx <= np,
                preds <= idx,
                cmp < 3,
                dlen <= 64,
                nps == rpu_nal@.num_pivots_minus_2,
                cdt == rpu_nal.coefficient_data_type,
                idc_row@.len() == idx,
                pf_row@.len() == idx,
                npred_row@.len() == idx,
                diff_row@.len() == idx,
                po_row@.len() == idx,
                li_row@.len() == idx,
                pliv_int_row@.len() == idx,
                pliv_row@.len() == idx,
                pc_int_row@.len() == idx,
                pc_row@.len() == idx,
                mo_row@.len() == idx,
                mc_int_row@.len() == idx,
                mc_row@.len() == idx,
                mcoef_int_row@.len() == idx,
                mcoef_row@.len() == idx,
                preds == preds_capped(pf_row@, idx as int),
                forall|p: int|
                    0 <= p < idx ==> #[trigger] npred_row@[p] == preds_capped(pf_row@, p),
                forall|p: int|
                    0 <= p < idx ==> (#[trigger] pf_row@[p] ==> preds_capped(pf_row@, p) >= 1),
                forall|p: int|
                    0 <= p < idx ==> mmr_entry_shape(
                        #[trigger] mcoef_row@[p].deep_view(),
                        mcoef_int_row@[p].deep_view(),
                        !pf_row@[p] && idc_row@[p] == 1,
                        mo_row@[p],
                    ),
                spec_rpu_data_mapping(bits0, pos0, rpu_nal@) == (
                match spec_map_pivot_loop(
                    bits0,
                    reader.spec_pos(),
                    idx as int,
                    np as int + 1,
                    np,
                    preds as int,
                    cdt,
                    dlen as int,
                ) {
                    Ok(p) => spec_map_components(bits0, p, cmp + 1, nps, cdt, dlen as int),
                    Err(e) => Err::<int, DemuxError>(e),
                }),
            ensures
                reader.wf(),
                reader.spec_bits() == bits0,
                idc_row@.len() == np + 1,
                pf_row@.len() == np + 1,
                npred_row@.len() == np + 1,
                diff_row@.len() == np + 1,
                po_row@.len() == np + 1,
                li_row@.len() == np + 1,
                pliv_int_row@.len() == np + 1,
                pliv_row@.len() == np + 1,
                pc_int_row@.len() == np + 1,
                pc_row@.len() == np + 1,
                mo_row@.len() == np + 1,
                mc_int_row@.len() == np + 1,
                mc_row@.len() == np + 1,
                mcoef_int_row@.len() == np + 1,
                mcoef_row@.len() == np + 1,
                forall|p: int|
                    0 <= p < np + 1 ==> #[trigger] npred_row@[p] == preds_capped(pf_row@, p),
                forall|p: int|
                    0 <= p < np + 1 ==> (#[trigger] pf_row@[p] ==> preds_capped(pf_row@, p) >= 1),
                forall|p: int|
                    0 <= p < np + 1 ==> mmr_entry_shape(
                        #[trigger] mcoef_row@[p].deep_view(),
                        mcoef_int_row@[p].deep_view(),
                        !pf_row@[p] && idc_row@[p] == 1,
                        mo_row@[p],
                    ),
                spec_rpu_data_mapping(bits0, pos0, rpu_nal@) == spec_map_components(
                    bits0,
                    reader.spec_pos(),
                    cmp + 1,
                    nps,
                    cdt,
                    dlen as int,
                ),
            decreases np - idx,
        {
            let ghost pf_pre = pf_row@;
            let idc = match reader.get_ue() {
                Ok(v) => v,
                Err(e) => {
                    return Err(e);
                },
            };
            idc_row.push(idc);
            let pf = if preds >= 1 {
                match reader.get() {
                    Ok(v) => v,
                    Err(e) => {
                        return Err(e);
                    },
                }
            } else {
                false
            };
            pf_row.push(pf);
            npred_row.push(preds);
            proof {
                lemma_preds_capped_push_all(pf_pre, pf, idx as int);
            }
            if !pf {
                let vals = match read_map_param(reader, idc, idx == np, cdt, dlen) {
                    Ok(v) => v,
                    Err(e) => {
                        return Err(e);
                    },
                };
                po_row.push(vals.poly_order_minus1);
                li_row.push(vals.linear_interp_flag);
                pliv_int_row.push(vals.pred_linear_interp_value_int);
                pliv_row.push(vals.pred_linear_interp_value);
                pc_int_row.push(vals.poly_coef_int);
                pc_row.push(vals.poly_coef);
                mo_row.push(vals.mmr_order_minus1);
                mc_int_row.push(vals.mmr_constant_int);
                mc_row.push(vals.mmr_constant);
                mcoef_int_row.push(vals.mmr_coef_int);
                mcoef_row.push(vals.mmr_coef);
                diff_row.push(0);
                if preds < 2 {
                    preds += 1;
                }
            } else {
                let diff = if preds > 1 {
                    match reader.get_ue() {
                        Ok(v) => v,
                        Err(e) => {
                            return Err(e);
                        },
                    }
                } else {
                    0
                };
                diff_row.push(diff);
                let defaults = map_param_vals_default();
                po_row.push(defaults.poly_order_minus1);
                li_row.push(defaults.linear_interp_flag);
                pliv_int_row.push(defaults.pred_linear_interp_value_int);
                pliv_row.push(defaults.pred_linear_interp_value);
                pc_int_row.push(defaults.poly_coef_int);
                pc_row.push(defaults.poly_coef);
                mo_row.push(defaults.mmr_order_minus1);
                mc_int_row.push(defaults.mmr_constant_int);
                mc_row.push(defaults.mmr_constant);
                proof {
                    assert(defaults.mmr_coef.deep_view() =~= Seq::<Seq<u64>>::empty());
                    assert(defaults.mmr_coef_int.deep_view() =~= Seq::<Seq<i64>>::empty());
                }
                mcoef_int_row.push(defaults.mmr_coef_int);
                mcoef_row.push(defaults.mmr_coef);
            }
            if idx == np {
                proof {
                    assert(spec_map_pivot_loop(
                        bits0,
                        reader.spec_pos(),
                        idx as int + 1,
                        np as int + 1,
                        np,
                        preds as int,
                        cdt,
                        dlen as int,
                    ) == Ok::<int, DemuxError>(reader.spec_pos()));
                }
                break ;
            }
            idx += 1;
        }
        data.mapping_idc.push(idc_row);
        data.mapping_param_pred_flag.push(pf_row);
        data.num_mapping_param_predictors.push(npred_row);
        data.diff_pred_part_idx_mapping_minus1.push(diff_row);
        data.poly_order_minus1.push(po_row);
        data.linear_interp_flag.push(li_row);
        data.pred_linear_interp_value_int.push(pliv_int_row);
        data.pred_linear_interp_value.push(pliv_row);
        data.poly_coef_int.push(pc_int_row);
        data.poly_coef.push(pc_row);
        data.mmr_order_minus1.push(mo_row);
        data.mmr_constant_int.push(mc_int_row);
        data.mmr_constant.push(mc_row);
        data.mmr_coef_int.push(mcoef_int_row);
        data.mmr_coef.push(mcoef_row);
        proof {
            lemma_mapping_rows_unchanged(data_pre, data, cmp as int);
            assert(mapping_component_shape(data, cmp as int, pivot_row_count(nps, cmp as int)));
        }
        cmp += 1;
    }
    proof {
        assert(mapping_shape_ok(data, nps));
    }
    Ok(data)
}

/// Pushing a new component's rows leaves the earlier components, and
/// the shapes already established of them, unchanged.
proof fn lemma_mapping_rows_unchanged(pre: VdrRpuData, post: VdrRpuData, k: int)
    requires
        post.mapping_idc@ == pre.mapping_idc@.push(post.mapping_idc@.last()),
        post.mapping_param_pred_flag@ == pre.mapping_param_pred_flag@.push(
            post.mapping_param_pred_flag@.last(),
        ),
        post.num_mapping_param_predictors@ == pre.num_mapping_param_predictors@.push(
            post.num_mapping_param_predictors@.last(),
        ),
        post.diff_pred_part_idx_mapping_minus1@ == pre.diff_pred_part_idx_mapping_minus1@.push(
            post.diff_pred_part_idx_mapping_minus1@.last(),
        ),
        post.poly_order_minus1@ == pre.poly_order_minus1@.push(post.poly_order_minus1@.last()),
        post.linear_interp_flag@ == pre.linear_interp_flag@.push(post.linear_interp_flag@.last()),
        post.pred_linear_interp_value_int@ == pre.pred_linear_interp_value_int@.push(
            post.pred_linear_interp_value_int@.last(),
        ),
        post.pred_linear_interp_value@ == pre.pred_linear_interp_value@.push(
            post.pred_linear_interp_value@.last(),
        ),
        post.poly_coef_int@ == pre.poly_coef_int@.push(post.poly_coef_int@.last()),
        post.poly_coef@ == pre.poly_coef@.push(post.poly_coef@.last()),
        post.mmr_order_minus1@ == pre.mmr_order_minus1@.push(post.mmr_order_minus1@.last()),
        post.mmr_constant_int@ == pre.mmr_constant_int@.push(post.mmr_constant_int@.last()),
        post.mmr_constant@ == pre.mmr_constant@.push(post.mmr_constant@.last()),
        post.mmr_coef_int@ == pre.mmr_coef_int@.push(post.mmr_coef_int@.last()),
        post.mmr_coef@ == pre.mmr_coef@.push(post.mmr_coef@.last()),
        pre.mapping_idc@.len() == k,
        pre.mapping_param_pred_flag@.len() == k,
        pre.num_mapping_param_predictors@.len() == k,
        pre.diff_pred_part_idx_mapping_minus1@.len() == k,
        pre.poly_order_minus1@.len() == k,
        pre.linear_interp_flag@.len() == k,
        pre.pred_linear_interp_value_int@.len() == k,
        pre.pred_linear_interp_value@.len() == k,
        pre.poly_coef_int@.len() == k,
        pre.poly_coef@.len() == k,
        pre.mmr_order_minus1@.len() == k,
        pre.mmr_constant_int@.len() == k,
        pre.mmr_constant@.len() == k,
        pre.mmr_coef_int@.len() == k,
        pre.mmr_coef@.len() == k,
    ensures
        forall|c: int, n: int|
            0 <= c < k && mapping_component_shape(pre, c, n)
                ==> #[trigger] mapping_component_shape(post, c, n),
{
    assert forall|c: int, n: int|
        0 <= c < k && mapping_component_shape(pre, c, n) implies #[trigger] mapping_component_shape(
        post,
        c,
        n,
    ) by {
        assert(post.mapping_idc@[c] == pre.mapping_idc@[c]);
        assert(post.mapping_param_pred_flag@[c] == pre.mapping_param_pred_flag@[c]);
        assert(post.num_mapping_param_predictors@[c] == pre.num_mapping_param_predictors@[c]);
        assert(post.diff_pred_part_idx_mapping_minus1@[c]
            == pre.diff_pred_part_idx_mapping_minus1@[c]);
        assert(post.poly_order_minus1@[c] == pre.poly_order_minus1@[c]);
        assert(post.linear_interp_flag@[c] == pre.linear_interp_flag@[c]);
        assert(post.pred_linear_interp_value_int@[c] == pre.pred_linear_interp_value_int@[c]);
        assert(post.pred_linear_interp_value@[c] == pre.pred_linear_interp_value@[c]);
        assert(post.poly_coef_int@[c] == pre.poly_coef_int@[c]);
        assert(post.poly_coef@[c] == pre.poly_coef@[c]);
        assert(post.mmr_order_minus1@[c] == pre.mmr_order_minus1@[c]);
        assert(post.mmr_constant_int@[c] == pre.mmr_constant_int@[c]);
        assert(post.mmr_constant@[c] == pre.mmr_constant@[c]);
        assert(post.mmr_coef_int@[c] == pre.mmr_coef_int@[c]);
        assert(post.mmr_coef@[c] == pre.mmr_coef@[c]);
    }
}

/// The running count, the gating of stored flags, and the count stored
/// per pivot all survive appending pivot `p`'s flag.
proof fn lemma_preds_capped_push_all(pf: Seq<bool>, x: bool, p: int)
    requires
        0 <= p == pf.len(),
    ensures
        preds_capped(pf.push(x), p + 1) == (if !x && preds_capped(pf, p) < 2 {
            preds_capped(pf, p) + 1
        } else {
            preds_capped(pf, p)
        }),
        forall|q: int| 0 <= q <= p ==> #[trigger] preds_capped(pf.push(x), q) == preds_capped(
            pf,
            q,
        ),
{
    assert forall|q: int| 0 <= q <= p implies #[trigger] preds_capped(pf.push(x), q)
        == preds_capped(pf, q) by {
        lemma_preds_capped_push(pf, x, q);
    }
    lemma_preds_capped_push(pf, x, p);
    assert(pf.push(x)[p] == x);
    assert(preds_capped(pf.push(x), p + 1) == (if !pf.push(x)[p] && preds_capped(pf.push(x), p) < 2 {
        preds_capped(pf.push(x), p) + 1
    } else {
        preds_capped(pf.push(x), p)
    }));
}

/// The non-linear-quantization parameters of one component.
pub open spec fn spec_nlq_param(
    bits: Seq<bool>,
    pos: int,
    elw: int,
    method: u8,
    cdt: u8,
    dlen: int,
) -> Result<int, DemuxError> {
    match spec_read_n(bits, pos, elw) {
        Err(e) => Err(e),
        Ok(off) => match spec_ue_pair(bits, off.1, cdt, dlen) {
            Err(e) => Err(e),
            Ok(p) => if method == 0 {
                match spec_ue_pair(bits, p, cdt, dlen) {
                    Err(e) => Err(e),
                    Ok(p2) => spec_ue_pair(bits, p2, cdt, dlen),
                }
            } else {
                Ok(p)
            },
        },
    }
}

/// The NLQ reads for the components `cmp..3` of one pivot.
pub open spec fn spec_nlq_cmp_loop(
    bits: Seq<bool>,
    pos: int,
    cmp: int,
    preds: int,
    elw: int,
    method: u8,
    cdt: u8,
    dlen: int,
) -> Result<int, DemuxError>
    decreases 3 - cmp,
{
    if cmp >= 3 {
        Ok(pos)
    } else {
        let pf_r = if preds >= 1 {
            spec_read_bit(bits, pos)
        } else {
            Ok((false, pos))
        };
        match pf_r {
            Err(e) => Err(e),
            Ok(pf) => {
                if !pf.0 {
                    match spec_nlq_param(bits, pf.1, elw, method, cdt, dlen) {
                        Err(e) => Err(e),
                        Ok(p) => spec_nlq_cmp_loop(
                            bits,
                            p,
                            cmp + 1,
                            if preds < 2 {
                                preds + 1
                            } else {
                                preds
                            },
                            elw,
                            method,
                            cdt,
                            dlen,
                        ),
                    }
                } else if preds > 1 {
                    match spec_read_ue(bits, pf.1) {
                        Err(e) => Err(e),
                        Ok(d) => spec_nlq_cmp_loop(bits, d.1, cmp + 1, preds, elw, method, cdt, dlen),
                    }
                } else {
                    spec_nlq_cmp_loop(bits, pf.1, cmp + 1, preds, elw, method, cdt, dlen)
                }
            },
        }
    }
}

/// The NLQ reads for the pivots `idx..count`.
pub open spec fn spec_nlq_pivot_loop(
    bits: Seq<bool>,
    pos: int,
    idx: int,
    count: int,
    elw: int,
    method: u8,
    cdt: u8,
    dlen: int,
) -> Result<int, DemuxError>
    decreases count - idx,
{
    if idx >= count {
        Ok(pos)
    } else {
        match spec_nlq_cmp_loop(bits, pos, 0, 0, elw, method, cdt, dlen) {
            Err(e) => Err(e),
            Ok(p) => spec_nlq_pivot_loop(bits, p, idx + 1, count, elw, method, cdt, dlen),
        }
    }
}

/// The whole NLQ payload.
pub open spec fn spec_rpu_data_nlq(bits: Seq<bool>, pos: int, h: RpuNalView) -> Result<
    int,
    DemuxError,
> {
    match spec_coef_len(h) {
        Err(e) => Err(e),
        Ok(dlen) => {
            if h.el_bit_depth_minus8 > 56 {
                Err(DemuxError::Malformed)
            } else {
                spec_nlq_pivot_loop(
                    bits,
                    pos,
                    0,
                    h.nlq_num_pivots_minus2 as int + 1,
                    h.el_bit_depth_minus8 as int + 8,
                    h.nlq_method_idc,
                    h.coefficient_data_type,
                    dlen,
                )
            }
        },
    }
}

/// Decodes the NLQ payload; as with the mapping payload, the cursor
/// movement and the success condition are the contract.
pub fn rpu_data_nlq(reader: &mut BitVecReader, rpu_nal: &RpuNal) -> (r: Result<
    NlqData,
    DemuxError,
>)
    requires
        old(reader).wf(),
    ensures
        final(reader).wf(),
        final(reader).spec_bits() == old(reader).spec_bits(),
        match spec_rpu_data_nlq(old(reader).spec_bits(), old(reader).spec_pos(), rpu_nal@) {
            Ok(p) => r matches Ok(d) && final(reader).spec_pos() == p && nlq_shape_ok(
                d,
                rpu_nal.nlq_num_pivots_minus2 as int + 1,
            ),
            Err(e) => r matches Err(e2) && e2 == e,
        },
{
    let cdt = rpu_nal.coefficient_data_type;
    let dlen: usize;
    if cdt == 0 {
        if rpu_nal.coefficient_log2_denom > 64 {
            return Err(DemuxError::Malformed);
        }
        dlen = rpu_nal.coefficient_log2_denom as usize;
    } else if cdt == 1 {
        dlen = 32;
    } else {
        return Err(DemuxError::Malformed);
    }
    if rpu_nal.el_bit_depth_minus8 > 56 {
        return Err(DemuxError::Malformed);
    }
    let elw = (rpu_nal.el_bit_depth_minus8 + 8) as usize;
    let method = rpu_nal.nlq_method_idc;
    let count: usize = rpu_nal.nlq_num_pivots_minus2 as usize + 1;
    let mut data = NlqData {
        num_nlq_param_predictors: Vec::new(),
        nlq_param_pred_flag: Vec::new(),
        diff_pred_part_idx_nlq_minus1: Vec::new(),
        nlq_offset: Vec::new(),
        vdr_in_max_int: Vec::new(),
        vdr_in_max: Vec::new(),
        linear_deadzone_slope_int: Vec::new(),
        linear_deadzone_slope: Vec::new(),
        linear_deadzone_threshold_int: Vec::new(),
        linear_deadzone_threshold: Vec::new(),
    };
    let ghost bits0 = reader.spec_bits();
    let ghost pos0 = reader.spec_pos();
    let mut idx: usize = 0;
    while idx < count
        invariant
            reader.wf(),
            reader.spec_bits() == bits0,
            bits0 == old(reader).spec_bits(),
            pos0 == old(reader).spec_pos(),
            idx <= count,
            dlen <= 64,
            8 <= elw <= 64,
            data.num_nlq_param_predictors@.len() == idx,
            data.nlq_param_pred_flag@.len() == idx,
            data.diff_pred_part_idx_nlq_minus1@.len() == idx,
            data.nlq_offset@.len() == idx,
            data.vdr_in_max_int@.len() == idx,
            data.vdr_in_max@.len() == idx,
            data.linear_deadzone_slope_int@.len() == idx,
            data.linear_deadzone_slope@.len() == idx,
            data.linear_deadzone_threshold_int@.len() == idx,
            data.linear_deadzone_threshold@.len() == idx,
            forall|p: int|
                0 <= p < idx ==> #[trigger] data.num_nlq_param_predictors@[p]@.len() == 3,
            forall|p: int| 0 <= p < idx ==> #[trigger] data.nlq_param_pred_flag@[p]@.len() == 3,
            forall|p: int|
                0 <= p < idx ==> #[trigger] data.diff_pred_part_idx_nlq_minus1@[p]@.len() == 3,
            forall|p: int| 0 <= p < idx ==> #[trigger] data.nlq_offset@[p]@.len() == 3,
            forall|p: int| 0 <= p < idx ==> #[trigger] data.vdr_in_max_int@[p]@.len() == 3,
            forall|p: int| 0 <= p < idx ==> #[trigger] data.vdr_in_max@[p]@.len() == 3,
            forall|p: int|
                0 <= p < idx ==> #[trigger] data.linear_deadzone_slope_int@[p]@.len() == 3,
            forall|p: int| 0 <= p < idx ==> #[trigger] data.linear_deadzone_slope@[p]@.len() == 3,
            forall|p: int|
                0 <= p < idx ==> #[trigger] data.linear_deadzone_threshold_int@[p]@.len() == 3,
            forall|p: int|
                0 <= p < idx ==> #[trigger] data.linear_deadzone_threshold@[p]@.len() == 3,
            spec_rpu_data_nlq(bits0, pos0, rpu_nal@) == spec_nlq_pivot_loop(
                bits0,
                reader.spec_pos(),
                idx as int,
                count as int,
                elw as int,
                method,
                cdt,
                dlen as int,
            ),
        decreases count - idx,
    {
        let mut npred_row: Vec<u64> = Vec::new();
        let mut pf_row: Vec<bool> = Vec::new();
        let mut diff_row: Vec<u64> = Vec::new();
        let mut off_row: Vec<u64> = Vec::new();
        let mut vmax_int_row: Vec<u64> = Vec::new();
        let mut vmax_row: Vec<u64> = Vec::new();
        let mut slope_int_row: Vec<u64> = Vec::new();
        let mut slope_row: Vec<u64> = Vec::new();
        let mut thr_int_row: Vec<u64> = Vec::new();
        let mut thr_row: Vec<u64> = Vec::new();
        let mut cmp: usize = 0;
        let mut preds: u64 = 0;
        while cmp < 3
            invariant
                reader.wf(),
                reader.spec_bits() == bits0,
                bits0 == old(reader).spec_bits(),
                pos0 == old(reader).spec_pos(),
                cmp <= 3,
                preds <= 3,
                idx < count,
                dlen <= 64,
                8 <= elw <= 64,
                npred_row@.len() == cmp,
                pf_row@.len() == cmp,
                diff_row@.len() == cmp,
                off_row@.len() == cmp,
                vmax_int_row@.len() == cmp,
                vmax_row@.len() == cmp,
                slope_int_row@.len() == cmp,
                slope_row@.len() == cmp,
                thr_int_row@.len() == cmp,
                thr_row@.len() == cmp,
                spec_rpu_data_nlq(bits0, pos0, rpu_nal@) == (
                match spec_nlq_cmp_loop(
                    bits0,
                    reader.spec_pos(),
                    cmp as int,
                    preds as int,
                    elw as int,
                    method,
                    cdt,
                    dlen as int,
                ) {
                    Ok(p) => spec_nlq_pivot_loop(
                        bits0,
                        p,
                        idx as int + 1,
                        count as int,
                        elw as int,
                        method,
                        cdt,
                        dlen as int,
                    ),
                    Err(e) => Err::<int, DemuxError>(e),
                }),
            decreases 3 - cmp,
        {
            let pf = if preds >= 1 {
                match reader.get() {
                    Ok(v) => v,
                    Err(e) => {
                        return Err(e);
                    },
                }
            } else {
                false
            };
            pf_row.push(pf);
            npred_row.push(preds);
            if !pf {
                let off = match reader.get_n(elw) {
                    Ok(v) => v,
                    Err(e) => {
                        return Err(e);
                    },
                };
                off_row.push(off);
                let vmax = match read_ue_pair(reader, cdt, dlen) {
                    Ok(v) => v,
                    Err(e) => {
                        return Err(e);
                    },
                };
                vmax_int_row.push(vmax.0);
                vmax_row.push(vmax.1);
                if method == 0 {
                    let slope = match read_ue_pair(reader, cdt, dlen) {
                        Ok(v) => v,
                        Err(e) => {
                            return Err(e);
                        },
                    };
                    slope_int_row.push(slope.0);
                    slope_row.push(slope.1);
                    let thr = match read_ue_pair(reader, cdt, dlen) {
                        Ok(v) => v,
                        Err(e) => {
                            return Err(e);
                        },
                    };
                    thr_int_row.push(thr.0);
                    thr_row.push(thr.1);
                } else {
                    slope_int_row.push(0);
                    slope_row.push(0);
                    thr_int_row.push(0);
                    thr_row.push(0);
                }
                diff_row.push(0);
                if preds < 2 {
                    preds += 1;
                }
            } else {
                let diff = if preds > 1 {
                    match reader.get_ue() {
                        Ok(v) => v,
                        Err(e) => {
                            return Err(e);
                        },
                    }
                } else {
                    0
                };
                diff_row.push(diff);
                off_row.push(0);
                vmax_int_row.push(0);
                vmax_row.push(0);
                slope_int_row.push(0);
                slope_row.push(0);
                thr_int_row.push(0);
                thr_row.push(0);
            }
            cmp += 1;
        }
        data.num_nlq_param_predictors.push(npred_row);
        data.nlq_param_pred_flag.push(pf_row);
        data.diff_pred_part_idx_nlq_minus1.push(diff_row);
        data.nlq_offset.push(off_row);
        data.vdr_in_max_int.push(vmax_int_row);
        data.vdr_in_max.push(vmax_row);
        data.linear_deadzone_slope_int.push(slope_int_row);
        data.linear_deadzone_slope.push(slope_row);
        data.linear_deadzone_threshold_int.push(thr_int_row);
        data.linear_deadzone_threshold.push(thr_row);
        idx += 1;
    }
    proof {
        assert(nlq_shape_ok(data, count as int));
    }
    Ok(data)
}

/// The fixed display-management block: the two color matrices and the
/// signal parameters, 509 bits in all. The EOTF and bit-depth values
/// sit at fixed offsets and feed the validation.
pub open spec fn spec_dm_fixed(bits: Seq<bool>, pos: int) -> Result<((u16, u8), int), DemuxError> {
    if 0 <= pos && pos + 509 <= bits.len() {
        let eotf = (spec_read_n(bits, pos + 384, 16)->Ok_0.0) as u16;
        let depth = (spec_read_n(bits, pos + 464, 5)->Ok_0.0) as u8;
        Ok(((eotf, depth), pos + 509))
    } else {
        Err(DemuxError::Truncated)
    }
}

/// One extension metadata block: its length, level, level-dependent
/// fields, and declared padding.
pub open spec fn spec_ext_block(bits: Seq<bool>, pos: int) -> Result<int, DemuxError> {
    match spec_read_ue(bits, pos) {
        Err(e) => Err(e),
        Ok(l) => match spec_read_n(bits, l.1, 8) {
            Err(e) => Err(e),
            Ok(lv) => {
                let used: int = if lv.0 == 1 {
                    36
                } else if lv.0 == 2 {
                    85
                } else if lv.0 == 5 {
                    52
                } else {
                    0
                };
                if lv.1 + used > bits.len() {
                    Err(DemuxError::Truncated)
                } else {
                    let pad: int = if 8 * l.0 > used {
                        8 * l.0 - used
                    } else {
                        0
                    };
                    if lv.1 + used + pad > bits.len() {
                        Err(DemuxError::Truncated)
                    } else {
                        Ok(lv.1 + used + pad)
                    }
                }
            },
        },
    }
}

/// `n` extension metadata blocks.
pub open spec fn spec_ext_blocks(bits: Seq<bool>, pos: int, n: int) -> Result<int, DemuxError>
    decreases n,
{
    if n <= 0 {
        Ok(pos)
    } else {
        match spec_ext_block(bits, pos) {
            Err(e) => Err(e),
            Ok(p) => spec_ext_blocks(bits, p, n - 1),
        }
    }
}

/// The extension-block count and, when nonzero, byte alignment and the
/// blocks themselves.
pub open spec fn spec_dm_tail(bits: Seq<bool>, pos: int) -> Result<int, DemuxError> {
    match spec_read_ue(bits, pos) {
        Err(e) => Err(e),
        Ok(ne) => {
            if ne.0 > 0 {
                let up = ne.1 + ((8 - ne.1 % 8) % 8);
                if up > bits.len() {
                    Err(DemuxError::Truncated)
                } else {
                    spec_ext_blocks(bits, up, ne.0 as int)
                }
            } else {
                Ok(ne.1)
            }
        },
    }
}

/// The whole display-management payload, with its validation: the
/// affected-id, bit-depth and EOTF bounds are checked once the payload
/// has been consumed.
pub open spec fn spec_vdr_dm(bits: Seq<bool>, pos: int) -> Result<((u64, u16, u8), int), DemuxError> {
    match spec_read_ue(bits, pos) {
        Err(e) => Err(e),
        Ok(aff) => match spec_read_ue(bits, aff.1) {
            Err(e) => Err(e),
            Ok(cur) => match spec_read_ue(bits, cur.1) {
                Err(e) => Err(e),
                Ok(sr) => match spec_dm_fixed(bits, sr.1) {
                    Err(e) => Err(e),
                    Ok(fx) => match spec_dm_tail(bits, fx.1) {
                        Err(e) => Err(e),
                        Ok(p) => {
                            if aff.0 <= 15 && 8 <= fx.0.1 <= 16 && fx.0.0 == 65535 {
                                Ok(((aff.0, fx.0.0, fx.0.1), p))
                            } else {
                                Err(DemuxError::Malformed)
                            }
                        },
                    },
                },
            },
        },
    }
}

/// Reads the fixed display-management block into `data`.
#[verifier::rlimit(100)]
#[verifier::spinoff_prover]
fn read_dm_fixed(reader: &mut BitVecReader, data: &mut VdrDmData) -> (r: Result<(), DemuxError>)
    requires
        old(reader).wf(),
    ensures
        final(reader).wf(),
        final(reader).spec_bits() == old(reader).spec_bits(),
        match spec_dm_fixed(old(reader).spec_bits(), old(reader).spec_pos()) {
            Ok(fx) => r == Ok::<(), DemuxError>(()) && final(reader).spec_pos() == fx.1 && final(data).signal_eotf == fx.0.0
                && final(data).signal_bit_depth == fx.0.1 && final(data).affected_dm_metadata_id
                == old(data).affected_dm_metadata_id && final(data).current_dm_metadata_id == old(
                data,
            ).current_dm_metadata_id && final(data).scene_refresh_flag == old(
                data,
            ).scene_refresh_flag && final(data).num_ext_blocks == old(data).num_ext_blocks
                && final(data).ext_metadata_blocks == old(data).ext_metadata_blocks,
            Err(e) => r == Err::<(), DemuxError>(e),
        },
{
    proof {
        reader.lemma_wf();
        vstd::arithmetic::power2::lemma2_to64();
    }
    if reader.remaining() < 509 {
        return Err(DemuxError::Truncated);
    }
    let y0 = match reader.get_n(16) {
        Ok(v) => v,
        Err(e) => {
            return Err(e);
        },
    };
    let y1 = match reader.get_n(16) {
        Ok(v) => v,
        Err(e) => {
            return Err(e);
        },
    };
    let y2 = match reader.get_n(16) {
        Ok(v) => v,
        Err(e) => {
            return Err(e);
        },
    };
    let y3 = match reader.get_n(16) {
        Ok(v) => v,
        Err(e) => {
            return Err(e);
        },
    };
    let y4 = match reader.get_n(16) {
        Ok(v) => v,
        Err(e) => {
            return Err(e);
        },
    };
    let y5 = match reader.get_n(16) {
        Ok(v) => v,
        Err(e) => {
            return Err(e);
        },
    };
    let y6 = match reader.get_n(16) {
        Ok(v) => v,
        Err(e) => {
            return Err(e);
        },
    };
    let y7 = match reader.get_n(16) {
        Ok(v) => v,
        Err(e) => {
            return Err(e);
        },
    };
    let y8 = match reader.get_n(16) {
        Ok(v) => v,
        Err(e) => {
            return Err(e);
        },
    };
    let o0 = match reader.get_n(32) {
        Ok(v) => v,
        Err(e) => {
            return Err(e);
        },
    };
    let o1 = match reader.get_n(32) {
        Ok(v) => v,
        Err(e) => {
            return Err(e);
        },
    };
    let o2 = match reader.get_n(32) {
        Ok(v) => v,
        Err(e) => {
            return Err(e);
        },
    };
    let r0 = match reader.get_n(16) {
        Ok(v) => v,
        Err(e) => {
            return Err(e);
        },
    };
    let r1 = match reader.get_n(16) {
        Ok(v) => v,
        Err(e) => {
            return Err(e);
        },
    };
    let r2 = match reader.get_n(16) {
        Ok(v) => v,
        Err(e) => {
            return Err(e);
        },
    };
    let r3 = match reader.get_n(16) {
        Ok(v) => v,
        Err(e) => {
            return Err(e);
        },
    };
    let r4 = match reader.get_n(16) {
        Ok(v) => v,
        Err(e) => {
            return Err(e);
        },
    };
    let r5 = match reader.get_n(16) {
        Ok(v) => v,
        Err(e) => {
            return Err(e);
        },
    };
    let r6 = match reader.get_n(16) {
        Ok(v) => v,
        Err(e) => {
            return Err(e);
        },
    };
    let r7 = match reader.get_n(16) {
        Ok(v) => v,
        Err(e) => {
            return Err(e);
        },
    };
    let r8 = match reader.get_n(16) {
        Ok(v) => v,
        Err(e) => {
            return Err(e);
        },
    };
    let eotf = match reader.get_n(16) {
        Ok(v) => v,
        Err(e) => {
            return Err(e);
        },
    };
    let ep0 = match reader.get_n(16) {
        Ok(v) => v,
        Err(e) => {
            return Err(e);
        },
    };
    let ep1 = match reader.get_n(16) {
        Ok(v) => v,
        Err(e) => {
            return Err(e);
        },
    };
    let ep2 = match reader.get_n(32) {
        Ok(v) => v,
        Err(e) => {
            return Err(e);
        },
    };
    let depth = match reader.get_n(5) {
        Ok(v) => v,
        Err(e) => {
            return Err(e);
        },
    };
    let cs = match reader.get_n(2) {
        Ok(v) => v,
        Err(e) => {
            return Err(e);
        },
    };
    let cf = match reader.get_n(2) {
        Ok(v) => v,
        Err(e) => {
            return Err(e);
        },
    };
    let fr = match reader.get_n(2) {
        Ok(v) => v,
        Err(e) => {
            return Err(e);
        },
    };
    let minpq = match reader.get_n(12) {
        Ok(v) => v,
        Err(e) => {
            return Err(e);
        },
    };
    let maxpq = match reader.get_n(12) {
        Ok(v) => v,
        Err(e) => {
            return Err(e);
        },
    };
    let diag = match reader.get_n(10) {
        Ok(v) => v,
        Err(e) => {
            return Err(e);
        },
    };
    data.ycc_to_rgb_coef0 = #[verifier::truncate] (y0 as i16);
    data.ycc_to_rgb_coef1 = #[verifier::truncate] (y1 as i16);
    data.ycc_to_rgb_coef2 = #[verifier::truncate] (y2 as i16);
    data.ycc_to_rgb_coef3 = #[verifier::truncate] (y3 as i16);
    data.ycc_to_rgb_coef4 = #[verifier::truncate] (y4 as i16);
    data.ycc_to_rgb_coef5 = #[verifier::truncate] (y5 as i16);
    data.ycc_to_rgb_coef6 = #[verifier::truncate] (y6 as i16);
    data.ycc_to_rgb_coef7 = #[verifier::truncate] (y7 as i16);
    data.ycc_to_rgb_coef8 = #[verifier::truncate] (y8 as i16);
    data.ycc_to_rgb_offset0 = o0 as u32;
    data.ycc_to_rgb_offset1 = o1 as u32;
    data.ycc_to_rgb_offset2 = o2 as u32;
    data.rgb_to_lms_coef0 = #[verifier::truncate] (r0 as i16);
    data.rgb_to_lms_coef1 = #[verifier::truncate] (r1 as i16);
    data.rgb_to_lms_coef2 = #[verifier::truncate] (r2 as i16);
    data.rgb_to_lms_coef3 = #[verifier::truncate] (r3 as i16);
    data.rgb_to_lms_coef4 = #[verifier::truncate] (r4 as i16);
    data.rgb_to_lms_coef5 = #[verifier::truncate] (r5 as i16);
    data.rgb_to_lms_coef6 = #[verifier::truncate] (r6 as i16);
    data.rgb_to_lms_coef7 = #[verifier::truncate] (r7 as i16);
    data.rgb_to_lms_coef8 = #[verifier::truncate] (r8 as i16);
    data.signal_eotf = eotf as u16;
    data.signal_eotf_param0 = ep0 as u16;
    data.signal_eotf_param1 = ep1 as u16;
    data.signal_eotf_param2 = ep2 as u32;
    data.signal_bit_depth = depth as u8;
    data.signal_color_space = cs as u8;
    data.signal_chroma_format = cf as u8;
    data.signal_full_range_flag = fr as u8;
    data.source_min_pq = minpq as u16;
    data.source_max_pq = maxpq as u16;
    data.source_diagonal = diag as u16;
    Ok(())
}

/// A fresh extension metadata block.
fn ext_block_default() -> (r: ExtMetadataBlock)
    ensures
        r.ext_block_length == 0,
{
    ExtMetadataBlock {
        ext_block_length: 0,
        ext_block_level: 0,
        min_pq: 0,
        max_pq: 0,
        avg_pq: 0,
        target_max_pq: 0,
        trim_slope: 0,
        trim_offset: 0,
        trim_power: 0,
        trim_chroma_weight: 0,
        trim_saturation_gain: 0,
        ms_weight: 0,
        active_area_left_offset: 0,
        active_area_right_offset: 0,
        active_area_top_offset: 0,
        active_area_bottom_offset: 0,
    }
}

/// Reads the level-one statistics fields (36 bits).
fn read_ext_fields_l1(reader: &mut BitVecReader, blk: &mut ExtMetadataBlock) -> (r: Result<
    (),
    DemuxError,
>)
    requires
        old(reader).wf(),
    ensures
        final(reader).wf(),
        final(reader).spec_bits() == old(reader).spec_bits(),
        final(blk).ext_block_length == old(blk).ext_block_length,
        final(blk).ext_block_level == old(blk).ext_block_level,
        if old(reader).spec_pos() + 36 <= old(reader).spec_bits().len() {
            r == Ok::<(), DemuxError>(()) && final(reader).spec_pos() == old(reader).spec_pos()
                + 36
        } else {
            r == Err::<(), DemuxError>(DemuxError::Truncated)
        },
{
    proof {
        reader.lemma_wf();
    }
    let a = match reader.get_n(12) {
        Ok(v) => v,
        Err(e) => {
            return Err(e);
        },
    };
    let b = match reader.get_n(12) {
        Ok(v) => v,
        Err(e) => {
            return Err(e);
        },
    };
    let c = match reader.get_n(12) {
        Ok(v) => v,
        Err(e) => {
            return Err(e);
        },
    };
    proof {
        vstd::arithmetic::power2::lemma2_to64();
    }
    blk.min_pq = a as u16;
    blk.max_pq = b as u16;
    blk.avg_pq = c as u16;
    Ok(())
}

/// Reads the level-two trim fields (85 bits).
fn read_ext_fields_l2(reader: &mut BitVecReader, blk: &mut ExtMetadataBlock) -> (r: Result<
    (),
    DemuxError,
>)
    requires
        old(reader).wf(),
    ensures
        final(reader).wf(),
        final(reader).spec_bits() == old(reader).spec_bits(),
        final(blk).ext_block_length == old(blk).ext_block_length,
        final(blk).ext_block_level == old(blk).ext_block_level,
        if old(reader).spec_pos() + 85 <= old(reader).spec_bits().len() {
            r == Ok::<(), DemuxError>(()) && final(reader).spec_pos() == old(reader).spec_pos()
                + 85
        } else {
            r == Err::<(), DemuxError>(DemuxError::Truncated)
        },
{
    proof {
        reader.lemma_wf();
    }
    let a = match reader.get_n(12) {
        Ok(v) => v,
        Err(e) => {
            return Err(e);
        },
    };
    let b = match reader.get_n(12) {
        Ok(v) => v,
        Err(e) => {
            return Err(e);
        },
    };
    let c = match reader.get_n(12) {
        Ok(v) => v,
        Err(e) => {
            return Err(e);
        },
    };
    let d = match reader.get_n(12) {
        Ok(v) => v,
        Err(e) => {
            return Err(e);
        },
    };
    let f = match reader.get_n(12) {
        Ok(v) => v,
        Err(e) => {
            return Err(e);
        },
    };
    let g = match reader.get_n(12) {
        Ok(v) => v,
        Err(e) => {
            return Err(e);
        },
    };
    let w = match reader.get_n(13) {
        Ok(v) => v,
        Err(e) => {
            return Err(e);
        },
    };
    proof {
        vstd::arithmetic::power2::lemma2_to64();
    }
    blk.target_max_pq = a as u16;
    blk.trim_slope = b as u16;
    blk.trim_offset = c as u16;
    blk.trim_power = d as u16;
    blk.trim_chroma_weight = f as u16;
    blk.trim_saturation_gain = g as u16;
    blk.ms_weight = w as i16;
    Ok(())
}

/// Reads the level-five active-area fields (52 bits).
fn read_ext_fields_l5(reader: &mut BitVecReader, blk: &mut ExtMetadataBlock) -> (r: Result<
    (),
    DemuxError,
>)
    requires
        old(reader).wf(),
    ensures
        final(reader).wf(),
        final(reader).spec_bits() == old(reader).spec_bits(),
        final(blk).ext_block_length == old(blk).ext_block_length,
        final(blk).ext_block_level == old(blk).ext_block_level,
        if old(reader).spec_pos() + 52 <= old(reader).spec_bits().len() {
            r == Ok::<(), DemuxError>(()) && final(reader).spec_pos() == old(reader).spec_pos()
                + 52
        } else {
            r == Err::<(), DemuxError>(DemuxError::Truncated)
        },
{
    proof {
        reader.lemma_wf();
    }
    let a = match reader.get_n(13) {
        Ok(v) => v,
        Err(e) => {
            return Err(e);
        },
    };
    let b = match reader.get_n(13) {
        Ok(v) => v,
        Err(e) => {
            return Err(e);
        },
    };
    let c = match reader.get_n(13) {
        Ok(v) => v,
        Err(e) => {
            return Err(e);
        },
    };
    let d = match reader.get_n(13) {
        Ok(v) => v,
        Err(e) => {
            return Err(e);
        },
    };
    proof {
        vstd::arithmetic::power2::lemma2_to64();
    }
    blk.active_area_left_offset = a as u16;
    blk.active_area_right_offset = b as u16;
    blk.active_area_top_offset = c as u16;
    blk.active_area_bottom_offset = d as u16;
    Ok(())
}

/// Reads one extension metadata block, consuming its declared padding.
#[verifier::rlimit(100)]
#[verifier::spinoff_prover]
fn read_ext_block(reader: &mut BitVecReader) -> (r: Result<ExtMetadataBlock, DemuxError>)
    requires
        old(reader).wf(),
    ensures
        final(reader).wf(),
        final(reader).spec_bits() == old(reader).spec_bits(),
        match spec_ext_block(old(reader).spec_bits(), old(reader).spec_pos()) {
            Ok(p) => r is Ok && final(reader).spec_pos() == p,
            Err(e) => r matches Err(e2) && e2 == e,
        },
{
    let mut blk = ext_block_default();
    let len_b = match reader.get_ue() {
        Ok(v) => v,
        Err(e) => {
            return Err(e);
        },
    };
    let level = match reader.get_n(8) {
        Ok(v) => v,
        Err(e) => {
            return Err(e);
        },
    };
    proof {
        vstd::arithmetic::power2::lemma2_to64();
    }
    blk.ext_block_length = len_b;
    blk.ext_block_level = level as u8;
    let used: u64;
    if level == 1 {
        match read_ext_fields_l1(reader, &mut blk) {
            Ok(_) => (),
            Err(e) => {
                return Err(e);
            },
        }
        used = 36;
    } else if level == 2 {
        match read_ext_fields_l2(reader, &mut blk) {
            Ok(_) => (),
            Err(e) => {
                return Err(e);
            },
        }
        used = 85;
    } else if level == 5 {
        match read_ext_fields_l5(reader, &mut blk) {
            Ok(_) => (),
            Err(e) => {
                return Err(e);
            },
        }
        used = 52;
    } else {
        used = 0;
    }
    let rem = reader.remaining();
    let remu = rem as u64;
    proof {
        reader.lemma_wf();
        let u = used as int;
        let rm = remu as int;
        assert(8 * ((u + rm) / 8) <= u + rm && u + rm < 8 * ((u + rm) / 8) + 8)
            by (nonlinear_arith)
            requires
                u >= 0 && rm >= 0,
        ;
    }
    if len_b > (used + remu) / 8 {
        return Err(DemuxError::Truncated);
    }
    let pad64: u64 = if 8 * len_b > used {
        8 * len_b - used
    } else {
        0
    };
    match reader.skip(pad64 as usize) {
        Ok(_) => (),
        Err(e) => {
            proof {
                assert(false);
            }
            return Err(e);
        },
    }
    Ok(blk)
}

/// Decodes the display-management payload. The cursor movement, the
/// success condition, and the validated fields are pinned.
pub fn vdr_dm_data_payload(reader: &mut BitVecReader) -> (r: Result<VdrDmData, DemuxError>)
    requires
        old(reader).wf(),
    ensures
        final(reader).wf(),
        final(reader).spec_bits() == old(reader).spec_bits(),
        match spec_vdr_dm(old(reader).spec_bits(), old(reader).spec_pos()) {
            Ok(t) => r matches Ok(d) && d.affected_dm_metadata_id == t.0.0 && d.signal_eotf
                == t.0.1 && d.signal_bit_depth == t.0.2 && final(reader).spec_pos() == t.1
                && d.ext_metadata_blocks@.len() == d.num_ext_blocks,
            Err(e) => r matches Err(e2) && e2 == e,
        },
{
    let aff = match reader.get_ue() {
        Ok(v) => v,
        Err(e) => {
            return Err(e);
        },
    };
    let cur = match reader.get_ue() {
        Ok(v) => v,
        Err(e) => {
            return Err(e);
        },
    };
    let sr = match reader.get_ue() {
        Ok(v) => v,
        Err(e) => {
            return Err(e);
        },
    };
    let mut data = VdrDmData {
        affected_dm_metadata_id: aff,
        current_dm_metadata_id: cur,
        scene_refresh_flag: sr,
        ycc_to_rgb_coef0: 0,
        ycc_to_rgb_coef1: 0,
        ycc_to_rgb_coef2: 0,
        ycc_to_rgb_coef3: 0,
        ycc_to_rgb_coef4: 0,
        ycc_to_rgb_coef5: 0,
        ycc_to_rgb_coef6: 0,
        ycc_to_rgb_coef7: 0,
        ycc_to_rgb_coef8: 0,
        ycc_to_rgb_offset0: 0,
        ycc_to_rgb_offset1: 0,
        ycc_to_rgb_offset2: 0,
        rgb_to_lms_coef0: 0,
        rgb_to_lms_coef1: 0,
        rgb_to_lms_coef2: 0,
        rgb_to_lms_coef3: 0,
        rgb_to_lms_coef4: 0,
        rgb_to_lms_coef5: 0,
        rgb_to_lms_coef6: 0,
        rgb_to_lms_coef7: 0,
        rgb_to_lms_coef8: 0,
        signal_eotf: 0,
        signal_eotf_param0: 0,
        signal_eotf_param1: 0,
        signal_eotf_param2: 0,
        signal_bit_depth: 0,
        signal_color_space: 0,
        signal_chroma_format: 0,
        signal_full_range_flag: 0,
        source_min_pq: 0,
        source_max_pq: 0,
        source_diagonal: 0,
        num_ext_blocks: 0,
        ext_metadata_blocks: Vec::new(),
    };
    match read_dm_fixed(reader, &mut data) {
        Ok(_) => (),
        Err(e) => {
            return Err(e);
        },
    }
    let ghost bits0 = reader.spec_bits();
    let ghost eotf = data.signal_eotf;
    let ghost depth = data.signal_bit_depth;
    let ne = match reader.get_ue() {
        Ok(v) => v,
        Err(e) => {
            return Err(e);
        },
    };
    data.num_ext_blocks = ne;
    if ne > 0 {
        match reader.align_to_byte() {
            Ok(_) => (),
            Err(e) => {
                return Err(e);
            },
        }
        let mut i: u64 = 0;
        while i < ne
            invariant
                reader.wf(),
                reader.spec_bits() == bits0,
                bits0 == old(reader).spec_bits(),
                i <= ne,
                data.affected_dm_metadata_id == aff,
                data.signal_eotf == eotf,
                data.signal_bit_depth == depth,
                data.num_ext_blocks == ne,
                data.ext_metadata_blocks@.len() == i,
                spec_vdr_dm(old(reader).spec_bits(), old(reader).spec_pos()) == (
                match spec_ext_blocks(bits0, reader.spec_pos(), (ne - i) as int) {
                    Ok(p) => if aff <= 15 && 8 <= depth <= 16 && eotf == 65535 {
                        Ok::<((u64, u16, u8), int), DemuxError>(((aff, eotf, depth), p))
                    } else {
                        Err::<((u64, u16, u8), int), DemuxError>(DemuxError::Malformed)
                    },
                    Err(e) => Err::<((u64, u16, u8), int), DemuxError>(e),
                }),
            decreases ne - i,
        {
            let blk = match read_ext_block(reader) {
                Ok(v) => v,
                Err(e) => {
                    return Err(e);
                },
            };
            data.ext_metadata_blocks.push(blk);
            i += 1;
        }
    }
    if !(data.affected_dm_metadata_id <= 15 && data.signal_bit_depth >= 8
        && data.signal_bit_depth <= 16 && data.signal_eotf == 65535) {
        return Err(DemuxError::Malformed);
    }
    Ok(data)
}

/// The encoding of a list of pivot values at a fixed width.
pub open spec fn spec_enc_pivot_vals(vals: Seq<u64>, width: nat) -> Seq<bool>
    decreases vals.len(),
{
    if vals.len() == 0 {
        Seq::empty()
    } else {
        u64_bits(vals[0], width) + spec_enc_pivot_vals(vals.skip(1), width)
    }
}

/// The encoding of the pivot tables: per component a pivot count, then
/// its pivot values.
pub open spec fn spec_enc_components(nums: Seq<u64>, pivots: Seq<Seq<u64>>, width: nat) -> Seq<
    bool,
>
    decreases nums.len(),
{
    if nums.len() == 0 || pivots.len() == 0 {
        Seq::empty()
    } else {
        spec_ue_bits(nums[0]) + spec_enc_pivot_vals(pivots[0], width) + spec_enc_components(
            nums.skip(1),
            pivots.skip(1),
            width,
        )
    }
}

/// The encoding of the bit-depth and resampling fields.
pub open spec fn spec_enc_depth(h: RpuNalView) -> Seq<bool> {
    spec_ue_bits(h.bl_bit_depth_minus8) + spec_ue_bits(h.el_bit_depth_minus8) + spec_ue_bits(
        h.vdr_bit_depth_minus_8,
    ) + seq![h.spatial_resampling_filter_flag] + u64_bits(h.reserved_zero_3bits as u64, 3) + seq![
        h.el_spatial_resampling_filter_flag,
    ] + seq![h.disable_residual_flag]
}

/// The encoding of the sequence-information block.
pub open spec fn spec_enc_seq(h: RpuNalView) -> Seq<bool> {
    seq![h.chroma_resampling_explicit_filter_flag] + u64_bits(h.coefficient_data_type as u64, 2) + (
    if h.coefficient_data_type == 0 {
        spec_ue_bits(h.coefficient_log2_denom)
    } else {
        Seq::empty()
    }) + u64_bits(h.vdr_rpu_normalized_idc as u64, 2) + seq![h.bl_video_full_range_flag] + (
    if h.rpu_format & 0x700 == 0 {
        spec_enc_depth(h)
    } else {
        Seq::empty()
    })
}

/// The encoding of the identifier block.
pub open spec fn spec_enc_id(h: RpuNalView) -> Seq<bool> {
    if h.use_prev_vdr_rpu_flag {
        spec_ue_bits(h.prev_vdr_rpu_id)
    } else {
        spec_ue_bits(h.vdr_rpu_id) + spec_ue_bits(h.mapping_color_space) + spec_ue_bits(
            h.mapping_chroma_format_idc,
        ) + spec_enc_components(
            h.num_pivots_minus_2,
            h.pred_pivot_value,
            (h.bl_bit_depth_minus8 + 8) as nat,
        ) + (if h.rpu_format & 0x700 == 0 && !h.disable_residual_flag {
            u64_bits(h.nlq_method_idc as u64, 3)
        } else {
            Seq::empty()
        }) + spec_ue_bits(h.num_x_partitions_minus1) + spec_ue_bits(h.num_y_partitions_minus1)
    }
}

/// The encoding of the header fields present for `rpu_type == 2`.
pub open spec fn spec_enc_type2(h: RpuNalView) -> Seq<bool> {
    u64_bits(h.vdr_rpu_profile as u64, 4) + u64_bits(h.vdr_rpu_level as u64, 4) + seq![
        h.vdr_seq_info_present_flag,
    ] + (if h.vdr_seq_info_present_flag {
        spec_enc_seq(h)
    } else {
        Seq::empty()
    }) + seq![h.vdr_dm_metadata_present_flag] + seq![h.use_prev_vdr_rpu_flag] + spec_enc_id(h)
}

/// The encoding of the whole header: the exact bits `write_header`
/// emits for a record.
pub open spec fn spec_encode_header(h: RpuNalView) -> Seq<bool> {
    u64_bits(h.rpu_nal_prefix as u64, 8) + (if h.rpu_nal_prefix == 25 {
        u64_bits(h.rpu_type as u64, 6) + u64_bits(h.rpu_format as u64, 11) + (if h.rpu_type == 2 {
            spec_enc_type2(h)
        } else {
            Seq::empty()
        })
    } else {
        Seq::empty()
    })
}

/// Every Exp-Golomb header field is encodable.
pub open spec fn wf_header_scalars(h: RpuNalView) -> bool {
    &&& h.coefficient_log2_denom < u64::MAX
    &&& h.prev_vdr_rpu_id < u64::MAX
    &&& h.vdr_rpu_id < u64::MAX
    &&& h.mapping_color_space < u64::MAX
    &&& h.mapping_chroma_format_idc < u64::MAX
    &&& h.bl_bit_depth_minus8 < u64::MAX
    &&& h.el_bit_depth_minus8 < u64::MAX
    &&& h.vdr_bit_depth_minus_8 < u64::MAX
    &&& h.num_x_partitions_minus1 < u64::MAX
    &&& h.num_y_partitions_minus1 < u64::MAX
}

/// What the serializer needs of a header record: every Exp-Golomb field
/// encodable, and where the pivot tables are written, their counts
/// encodable and their width within the machine word.
pub open spec fn wf_header(h: RpuNalView) -> bool {
    &&& wf_header_scalars(h)
    &&& (h.rpu_nal_prefix == 25 && h.rpu_type == 2 && !h.use_prev_vdr_rpu_flag ==> {
        &&& h.bl_bit_depth_minus8 <= 56
        &&& forall|c: int|
            0 <= c < h.num_pivots_minus_2.len() ==> #[trigger] h.num_pivots_minus_2[c] < u64::MAX
    })
}

/// Successful pivot-value parses stay in bounds and record their count.
pub proof fn lemma_vals_bounds(bits: Seq<bool>, pos: int, count: int, width: int)
    requires
        0 <= pos,
        0 <= width <= 64,
    ensures
        spec_parse_pivot_vals(bits, pos, count, width) matches Ok(vp) ==> pos <= vp.1
            <= bits.len() || count <= 0,
        spec_parse_pivot_vals(bits, pos, count, width) matches Ok(vp) ==> (count >= 0 ==> vp.0.len()
            == count) && pos <= vp.1,
    decreases count,
{
    if count > 0 {
        match spec_read_n(bits, pos, width) {
            Ok(vp) => {
                lemma_read_n_bound(bits, pos, width);
                lemma_vals_bounds(bits, vp.1, count - 1, width);
            },
            Err(_) => {},
        }
    }
}

/// Successful component parses stay in bounds; the counts are
/// Exp-Golomb values and each pivot row holds its count plus two.
pub proof fn lemma_components_bounds(bits: Seq<bool>, pos: int, width: int, k: int)
    requires
        0 <= pos <= bits.len(),
        0 <= width <= 64,
        k >= 0,
    ensures
        spec_parse_components(bits, pos, width, k) matches Ok(cps) ==> {
            &&& pos <= cps.2 <= bits.len()
            &&& cps.0.len() == k
            &&& cps.1.len() == k
            &&& forall|c: int| 0 <= c < k ==> #[trigger] cps.0[c] < u64::MAX
            &&& forall|c: int| 0 <= c < k ==> #[trigger] cps.1[c].len() == cps.0[c] + 2
        },
    decreases k,
{
    if k > 0 {
        match spec_parse_one_component(bits, pos, width) {
            Ok(cp) => {
                lemma_read_ue_ok(bits, pos);
                let np = spec_read_ue(bits, pos)->Ok_0;
                lemma_vals_bounds(bits, np.1, np.0 + 2, width);
                lemma_components_bounds(bits, cp.1, width, k - 1);
                if spec_parse_components(bits, cp.1, width, k - 1) is Ok {
                    let cps = spec_parse_components(bits, pos, width, k)->Ok_0;
                    let rest = spec_parse_components(bits, cp.1, width, k - 1)->Ok_0;
                    assert(cps.0 == seq![cp.0.0] + rest.0 && cps.1 == seq![cp.0.1] + rest.1);
                    assert forall|c: int| 0 <= c < k implies #[trigger] cps.0[c] < u64::MAX by {
                        if c == 0 {
                            assert(cps.0[0] == cp.0.0);
                            assert(cp.0.0 <= u64::MAX - 1);
                        } else {
                            assert(cps.0[c] == rest.0[c - 1]);
                        }
                    }
                    assert forall|c: int| 0 <= c < k implies #[trigger] cps.1[c].len() == cps.0[c]
                        + 2 by {
                        if c == 0 {
                            assert(cps.0[0] == cp.0.0);
                            assert(cps.1[0] == cp.0.1);
                        } else {
                            assert(cps.0[c] == rest.0[c - 1]);
                            assert(cps.1[c] == rest.1[c - 1]);
                        }
                    }
                }
            },
            Err(_) => {},
        }
    }
}

/// A successfully parsed and validated header is serializable, and the
/// header end lies within the buffer.
pub proof fn lemma_parse_header_wf(bits: Seq<bool>, pos: int)
    requires
        0 <= pos <= bits.len(),
    ensures
        spec_parse_header(bits, pos) matches Ok(hp) ==> wf_header(hp.0) && pos <= hp.1
            <= bits.len(),
{
    match spec_read_n(bits, pos, 8) {
        Err(_) => {},
        Ok(prefix) => {
            lemma_read_n_bound(bits, pos, 8);
            if prefix.0 == 25 {
                match spec_read_n(bits, prefix.1, 6) {
                    Err(_) => {},
                    Ok(ty) => {
                        lemma_read_n_bound(bits, prefix.1, 6);
                        match spec_read_n(bits, ty.1, 11) {
                            Err(_) => {},
                            Ok(fmt) => {
                                lemma_read_n_bound(bits, ty.1, 11);
                                if ty.0 == 2 {
                                    lemma_type2_wf(bits, fmt.1, RpuNalView { rpu_type: ty.0 as u8, rpu_format: fmt.0 as u16, ..RpuNalView { rpu_nal_prefix: prefix.0 as u8, ..init_rpu_view() } });
                                }
                            },
                        }
                    },
                }
            }
        },
    }
}

proof fn lemma_type2_wf(bits: Seq<bool>, pos: int, h: RpuNalView)
    requires
        0 <= pos <= bits.len(),
        wf_header_scalars(h),
    ensures
        spec_parse_type2_fields(bits, pos, h) matches Ok(hp) ==> wf_header(hp.0) && pos <= hp.1
            <= bits.len(),
{
    {
        lemma_read_n_bound(bits, pos, 4);
        match spec_read_n(bits, pos, 4) {
            Err(_) => {},
            Ok(profile) => {
                lemma_read_n_bound(bits, profile.1, 4);
                match spec_read_n(bits, profile.1, 4) {
                    Err(_) => {},
                    Ok(level) => {
                        match spec_read_bit(bits, level.1) {
                            Err(_) => {},
                            Ok(si) => {
                                let h1 = RpuNalView {
                                    vdr_rpu_profile: profile.0 as u8,
                                    vdr_rpu_level: level.0 as u8,
                                    vdr_seq_info_present_flag: si.0,
                                    ..h
                                };
                                if si.0 {
                                    lemma_seq_fields_wf(bits, si.1, h1);
                                    match spec_parse_seq_fields(bits, si.1, h1) {
                                        Err(_) => {},
                                        Ok(hs) => {
                                            lemma_dm_prev_wf(bits, hs.1, hs.0);
                                        },
                                    }
                                } else {
                                    lemma_dm_prev_wf(bits, si.1, h1);
                                }
                            },
                        }
                    },
                }
            },
        }
    }
}

proof fn lemma_seq_fields_wf(bits: Seq<bool>, pos: int, h: RpuNalView)
    requires
        0 <= pos <= bits.len(),
        wf_header_scalars(h),
    ensures
        spec_parse_seq_fields(bits, pos, h) matches Ok(hp) ==> wf_header_scalars(hp.0) && pos
            <= hp.1 <= bits.len() && hp.0.rpu_nal_prefix == h.rpu_nal_prefix && hp.0.rpu_type
            == h.rpu_type && hp.0.use_prev_vdr_rpu_flag == h.use_prev_vdr_rpu_flag
            && hp.0.num_pivots_minus_2 == h.num_pivots_minus_2,
{
    match spec_read_bit(bits, pos) {
        Err(_) => {},
        Ok(chroma) => match spec_read_n(bits, chroma.1, 2) {
            Err(_) => {},
            Ok(cdt) => {
                lemma_read_n_bound(bits, chroma.1, 2);
                let denom_r = if cdt.0 == 0 {
                    spec_read_ue(bits, cdt.1)
                } else {
                    Ok((h.coefficient_log2_denom, cdt.1))
                };
                if cdt.0 == 0 {
                    lemma_read_ue_ok(bits, cdt.1);
                }
                match denom_r {
                    Err(_) => {},
                    Ok(denom) => match spec_read_n(bits, denom.1, 2) {
                        Err(_) => {},
                        Ok(norm) => {
                            lemma_read_n_bound(bits, denom.1, 2);
                            match spec_read_bit(bits, norm.1) {
                                Err(_) => {},
                                Ok(range) => {
                                    if h.rpu_format & 0x700 == 0 {
                                        lemma_depth_fields_wf(
                                            bits,
                                            range.1,
                                            RpuNalView {
                                                chroma_resampling_explicit_filter_flag: chroma.0,
                                                coefficient_data_type: cdt.0 as u8,
                                                coefficient_log2_denom: denom.0,
                                                vdr_rpu_normalized_idc: norm.0 as u8,
                                                bl_video_full_range_flag: range.0,
                                                ..h
                                            },
                                        );
                                    }
                                },
                            }
                        },
                    },
                }
            },
        },
    }
}

proof fn lemma_depth_fields_wf(bits: Seq<bool>, pos: int, h: RpuNalView)
    requires
        0 <= pos <= bits.len(),
        wf_header_scalars(h),
    ensures
        spec_parse_depth_fields(bits, pos, h) matches Ok(hp) ==> wf_header_scalars(hp.0) && pos
            <= hp.1 <= bits.len() && hp.0.rpu_nal_prefix == h.rpu_nal_prefix && hp.0.rpu_type
            == h.rpu_type && hp.0.use_prev_vdr_rpu_flag == h.use_prev_vdr_rpu_flag
            && hp.0.num_pivots_minus_2 == h.num_pivots_minus_2,
{
    {
        lemma_read_ue_ok(bits, pos);
        match spec_read_ue(bits, pos) {
            Err(_) => {},
            Ok(bl) => {
                lemma_read_ue_ok(bits, bl.1);
                match spec_read_ue(bits, bl.1) {
                    Err(_) => {},
                    Ok(el) => {
                        lemma_read_ue_ok(bits, el.1);
                        match spec_read_ue(bits, el.1) {
                            Err(_) => {},
                            Ok(vdr) => {
                                lemma_read_n_bound(bits, vdr.1 + 1, 3);
                            },
                        }
                    },
                }
            },
        }
    }
}

proof fn lemma_dm_prev_wf(bits: Seq<bool>, pos: int, h: RpuNalView)
    requires
        0 <= pos <= bits.len(),
        wf_header_scalars(h),
    ensures
        spec_parse_dm_prev_fields(bits, pos, h) matches Ok(hp) ==> wf_header(hp.0) && pos <= hp.1
            <= bits.len(),
{
    match spec_read_bit(bits, pos) {
        Err(_) => {},
        Ok(dm) => match spec_read_bit(bits, dm.1) {
            Err(_) => {},
            Ok(prev) => {
                let h1 = RpuNalView {
                    vdr_dm_metadata_present_flag: dm.0,
                    use_prev_vdr_rpu_flag: prev.0,
                    ..h
                };
                lemma_id_fields_wf(bits, prev.1, h1);
            },
        },
    }
}

proof fn lemma_id_fields_wf(bits: Seq<bool>, pos: int, h: RpuNalView)
    requires
        0 <= pos <= bits.len(),
        wf_header_scalars(h),
    ensures
        spec_parse_id_fields(bits, pos, h) matches Ok(hp) ==> wf_header(hp.0) && pos <= hp.1
            <= bits.len(),
{
    if h.use_prev_vdr_rpu_flag {
        lemma_read_ue_ok(bits, pos);
        match spec_read_ue(bits, pos) {
            Err(_) => {},
            Ok(prev) => {
                lemma_partitions_wf(bits, prev.1, RpuNalView { prev_vdr_rpu_id: prev.0, ..h });
            },
        }
    } else {
        lemma_read_ue_ok(bits, pos);
        match spec_read_ue(bits, pos) {
            Err(_) => {},
            Ok(id) => {
                lemma_read_ue_ok(bits, id.1);
                match spec_read_ue(bits, id.1) {
                    Err(_) => {},
                    Ok(mcs) => {
                        lemma_read_ue_ok(bits, mcs.1);
                        match spec_read_ue(bits, mcs.1) {
                            Err(_) => {},
                            Ok(mcf) => {
                                if h.bl_bit_depth_minus8 <= 56 {
                                    let width = h.bl_bit_depth_minus8 + 8;
                                    lemma_components_bounds(bits, mcf.1, width as int, 3);
                                    match spec_parse_components(bits, mcf.1, width as int, 3) {
                                        Err(_) => {},
                                        Ok(cps) => {
                                            let h1 = RpuNalView {
                                                vdr_rpu_id: id.0,
                                                mapping_color_space: mcs.0,
                                                mapping_chroma_format_idc: mcf.0,
                                                num_pivots_minus_2: cps.0,
                                                pred_pivot_value: cps.1,
                                                ..h
                                            };
                                            assert forall|c: int|
                                                0 <= c < h1.num_pivots_minus_2.len()
                                                    implies #[trigger] h1.num_pivots_minus_2[c]
                                                < u64::MAX by {
                                                assert(cps.0[c] < u64::MAX);
                                            }
                                            assert(wf_header(h1));
                                            if h1.rpu_format & 0x700 == 0
                                                && !h1.disable_residual_flag {
                                                lemma_read_n_bound(bits, cps.2, 3);
                                                match spec_read_n(bits, cps.2, 3) {
                                                    Err(_) => {},
                                                    Ok(nlq) => {
                                                        lemma_partitions_wf(
                                                            bits,
                                                            nlq.1,
                                                            RpuNalView {
                                                                nlq_method_idc: nlq.0 as u8,
                                                                nlq_num_pivots_minus2: 0,
                                                                ..h1
                                                            },
                                                        );
                                                    },
                                                }
                                            } else {
                                                lemma_partitions_wf(bits, cps.2, h1);
                                            }
                                        },
                                    }
                                }
                            },
                        }
                    },
                }
            },
        }
    }
}

proof fn lemma_partitions_wf(bits: Seq<bool>, pos: int, h: RpuNalView)
    requires
        0 <= pos <= bits.len(),
        wf_header(h),
    ensures
        spec_parse_partitions(bits, pos, h) matches Ok(hp) ==> wf_header(hp.0) && pos <= hp.1
            <= bits.len(),
{
    lemma_read_ue_ok(bits, pos);
    match spec_read_ue(bits, pos) {
        Err(_) => {},
        Ok(x) => {
            lemma_read_ue_ok(bits, x.1);
        },
    }
}

impl RpuNal {
    /// Whether the decoded RPU meets the profile invariants.
    pub fn validate(&self) -> (r: bool)
        ensures
            r == rpu_validate_spec(self@),
    {
        self.rpu_nal_prefix == 25 && self.vdr_rpu_profile == 1 && self.vdr_rpu_level == 0
            && self.bl_bit_depth_minus8 == 2 && self.el_bit_depth_minus8 == 2
            && self.vdr_bit_depth_minus_8 <= 6 && self.mapping_color_space == 0
            && self.mapping_chroma_format_idc == 0 && self.coefficient_log2_denom <= 23
            && self.nlq_method_idc == 0 && self.nlq_num_pivots_minus2 == 0
    }

    /// Rewrites the RPU to profile 8.1: RPU-only, no residual layer.
    /// Every other field, the payload records included, is unchanged.
    pub fn to_81(&mut self)
        ensures
            final(self)@ == to_81_spec(old(self)@),
            *final(self) == (RpuNal {
                el_spatial_resampling_filter_flag: false,
                disable_residual_flag: true,
                ..*old(self)
            }),
    {
        self.el_spatial_resampling_filter_flag = false;
        self.disable_residual_flag = true;
    }

    /// Writes the bit-depth and resampling fields.
    fn write_depth(&self, writer: &mut BitVecWriter)
        requires
            wf_header_scalars(self@),
        ensures
            final(writer).spec_bits() == old(writer).spec_bits() + spec_enc_depth(self@),
    {
        let ghost w0 = writer.spec_bits();
        writer.write_ue(self.bl_bit_depth_minus8);
        writer.write_ue(self.el_bit_depth_minus8);
        writer.write_ue(self.vdr_bit_depth_minus_8);
        writer.write(self.spatial_resampling_filter_flag);
        writer.write_n(self.reserved_zero_3bits as u64, 3);
        writer.write(self.el_spatial_resampling_filter_flag);
        writer.write(self.disable_residual_flag);
        proof {
            assert(writer.spec_bits() =~= w0 + spec_enc_depth(self@));
        }
    }

    /// Writes the sequence-information block.
    #[verifier::rlimit(100)]
    #[verifier::spinoff_prover]
    fn write_seq(&self, writer: &mut BitVecWriter)
        requires
            wf_header_scalars(self@),
        ensures
            final(writer).spec_bits() == old(writer).spec_bits() + spec_enc_seq(self@),
    {
        let ghost w0 = writer.spec_bits();
        writer.write(self.chroma_resampling_explicit_filter_flag);
        writer.write_n(self.coefficient_data_type as u64, 2);
        if self.coefficient_data_type == 0 {
            writer.write_ue(self.coefficient_log2_denom);
        }
        writer.write_n(self.vdr_rpu_normalized_idc as u64, 2);
        writer.write(self.bl_video_full_range_flag);
        if self.rpu_format & 0x700 == 0 {
            self.write_depth(writer);
        }
        proof {
            assert(writer.spec_bits() =~= w0 + spec_enc_seq(self@));
        }
    }

    /// Writes the three pivot tables.
    #[verifier::rlimit(100)]
    #[verifier::spinoff_prover]
    fn write_components(&self, writer: &mut BitVecWriter, width: usize)
        requires
            width <= 64,
            forall|c: int|
                0 <= c < self@.num_pivots_minus_2.len() ==> #[trigger] self@.num_pivots_minus_2[c]
                    < u64::MAX,
        ensures
            final(writer).spec_bits() == old(writer).spec_bits() + spec_enc_components(
                self@.num_pivots_minus_2,
                self@.pred_pivot_value,
                width as nat,
            ),
    {
        let ghost w0 = writer.spec_bits();
        let ghost nums = self@.num_pivots_minus_2;
        let ghost pivots = self@.pred_pivot_value;
        let k = if self.num_pivots_minus_2.len() < self.pred_pivot_value.len() {
            self.num_pivots_minus_2.len()
        } else {
            self.pred_pivot_value.len()
        };
        proof {
            assert(nums.skip(0) =~= nums);
            assert(pivots.skip(0) =~= pivots);
        }
        let mut cmp: usize = 0;
        while cmp < k
            invariant
                cmp <= k,
                width <= 64,
                k == if nums.len() < pivots.len() {
                    nums.len() as int
                } else {
                    pivots.len() as int
                },
                nums == self@.num_pivots_minus_2,
                pivots == self@.pred_pivot_value,
                forall|c: int| 0 <= c < nums.len() ==> #[trigger] nums[c] < u64::MAX,
                w0 + spec_enc_components(nums, pivots, width as nat) == writer.spec_bits()
                    + spec_enc_components(
                    nums.skip(cmp as int),
                    pivots.skip(cmp as int),
                    width as nat,
                ),
            decreases k - cmp,
        {
            let ghost wpre = writer.spec_bits();
            writer.write_ue(self.num_pivots_minus_2[cmp]);
            let row = &self.pred_pivot_value[cmp];
            let ghost rowv = pivots[cmp as int];
            let ghost wud = writer.spec_bits();
            proof {
                assert(row@ == rowv);
            }
            let n = row.len();
            proof {
                assert(rowv.skip(0) =~= rowv);
            }
            let mut j: usize = 0;
            while j < n
                invariant
                    j <= n,
                    width <= 64,
                    n == rowv.len(),
                    row@ == rowv,
                    wud + spec_enc_pivot_vals(rowv, width as nat) == writer.spec_bits()
                        + spec_enc_pivot_vals(rowv.skip(j as int), width as nat),
                decreases n - j,
            {
                let ghost wj = writer.spec_bits();
                writer.write_n(row[j], width);
                proof {
                    assert(rowv.skip(j as int)[0] == rowv[j as int]);
                    assert(rowv.skip(j as int).skip(1) =~= rowv.skip(j + 1));
                    assert((wj + u64_bits(rowv[j as int], width as nat)) + spec_enc_pivot_vals(
                        rowv.skip(j + 1),
                        width as nat,
                    ) =~= wj + (u64_bits(rowv[j as int], width as nat) + spec_enc_pivot_vals(
                        rowv.skip(j + 1),
                        width as nat,
                    )));
                }
                j += 1;
            }
            proof {
                assert(rowv.skip(n as int) =~= Seq::<u64>::empty());
                assert(spec_enc_pivot_vals(Seq::<u64>::empty(), width as nat) =~= Seq::<
                    bool,
                >::empty());
                assert(writer.spec_bits() + Seq::<bool>::empty() =~= writer.spec_bits());
                // one component emitted: the count, then its values
                assert(nums.skip(cmp as int)[0] == nums[cmp as int]);
                assert(pivots.skip(cmp as int)[0] == pivots[cmp as int]);
                assert(nums.skip(cmp as int).skip(1) =~= nums.skip(cmp + 1));
                assert(pivots.skip(cmp as int).skip(1) =~= pivots.skip(cmp + 1));
                assert(spec_enc_components(
                    nums.skip(cmp as int),
                    pivots.skip(cmp as int),
                    width as nat,
                ) =~= (spec_ue_bits(nums[cmp as int]) + spec_enc_pivot_vals(rowv, width as nat))
                    + spec_enc_components(nums.skip(cmp + 1), pivots.skip(cmp + 1), width as nat));
                assert(writer.spec_bits() =~= (wpre + spec_ue_bits(nums[cmp as int]))
                    + spec_enc_pivot_vals(rowv, width as nat));
                assert(wpre + (spec_ue_bits(nums[cmp as int]) + spec_enc_pivot_vals(
                    rowv,
                    width as nat,
                )) =~= writer.spec_bits());
            }
            cmp += 1;
        }
        proof {
            assert(spec_enc_components(
                nums.skip(k as int),
                pivots.skip(k as int),
                width as nat,
            ) =~= Seq::<bool>::empty());
            assert(writer.spec_bits() + Seq::<bool>::empty() =~= writer.spec_bits());
            assert(writer.spec_bits() =~= w0 + spec_enc_components(nums, pivots, width as nat));
        }
    }

    /// Writes the identifier block.
    fn write_id(&self, writer: &mut BitVecWriter)
        requires
            wf_header(self@),
            self@.rpu_nal_prefix == 25,
            self@.rpu_type == 2,
        ensures
            final(writer).spec_bits() == old(writer).spec_bits() + spec_enc_id(self@),
    {
        let ghost w0 = writer.spec_bits();
        if self.use_prev_vdr_rpu_flag {
            writer.write_ue(self.prev_vdr_rpu_id);
        } else {
            writer.write_ue(self.vdr_rpu_id);
            writer.write_ue(self.mapping_color_space);
            writer.write_ue(self.mapping_chroma_format_idc);
            let width = (self.bl_bit_depth_minus8 + 8) as usize;
            self.write_components(writer, width);
            if self.rpu_format & 0x700 == 0 && !self.disable_residual_flag {
                writer.write_n(self.nlq_method_idc as u64, 3);
            }
            writer.write_ue(self.num_x_partitions_minus1);
            writer.write_ue(self.num_y_partitions_minus1);
        }
        proof {
            assert(writer.spec_bits() =~= w0 + spec_enc_id(self@));
        }
    }

    /// Re-encodes the header fields, in decode order.
    #[verifier::rlimit(100)]
    #[verifier::spinoff_prover]
    pub fn write_header(&self, writer: &mut BitVecWriter)
        requires
            wf_header(self@),
        ensures
            final(writer).spec_bits() == old(writer).spec_bits() + spec_encode_header(self@),
    {
        let ghost w0 = writer.spec_bits();
        writer.write_n(self.rpu_nal_prefix as u64, 8);
        if self.rpu_nal_prefix == 25 {
            writer.write_n(self.rpu_type as u64, 6);
            writer.write_n(self.rpu_format as u64, 11);
            if self.rpu_type == 2 {
                writer.write_n(self.vdr_rpu_profile as u64, 4);
                writer.write_n(self.vdr_rpu_level as u64, 4);
                writer.write(self.vdr_seq_info_present_flag);
                if self.vdr_seq_info_present_flag {
                    self.write_seq(writer);
                }
                writer.write(self.vdr_dm_metadata_present_flag);
                writer.write(self.use_prev_vdr_rpu_flag);
                self.write_id(writer);
            }
        }
        proof {
            assert(writer.spec_bits() =~= w0 + spec_encode_header(self@));
        }
    }

    /// The mapping payload is not re-encoded: the serializer splices the
    /// original bits from `header_end` on. The writer is left untouched.
    pub fn write_vdr_rpu_data(&self, writer: &mut BitVecWriter)
        ensures
            final(writer).spec_bits() == old(writer).spec_bits(),
    {
    }

    /// The display-management payload is not re-encoded either.
    pub fn write_vdr_dm_data(&self, writer: &mut BitVecWriter)
        ensures
            final(writer).spec_bits() == old(writer).spec_bits(),
    {
    }
}

impl VdrRpuData {
    /// The mapping payload carries no further invariant of its own.
    pub fn validate(&self) -> (r: bool)
        ensures
            r,
    {
        true
    }
}

impl VdrDmData {
    /// The display-management invariants, as checked on decode.
    pub fn validate(&self) -> (r: bool)
        ensures
            r == (self.affected_dm_metadata_id <= 15 && 8 <= self.signal_bit_depth <= 16
                && self.signal_eotf == 65535),
    {
        self.affected_dm_metadata_id <= 15 && self.signal_bit_depth >= 8 && self.signal_bit_depth
            <= 16 && self.signal_eotf == 65535
    }
}

/// Writes the header and the (spliced, so empty here) payload sections.
pub fn write_rpu_data(rpu_nal: &RpuNal, writer: &mut BitVecWriter)
    requires
        wf_header(rpu_nal@),
    ensures
        final(writer).spec_bits() == old(writer).spec_bits() + spec_encode_header(rpu_nal@),
{
    rpu_nal.write_header(writer);
    if rpu_nal.rpu_type == 2 {
        if !rpu_nal.use_prev_vdr_rpu_flag {
            rpu_nal.write_vdr_rpu_data(writer);
        }
        if rpu_nal.vdr_dm_metadata_present_flag {
            rpu_nal.write_vdr_dm_data(writer);
        }
    }
}


/// The mapping payload followed by the NLQ payload, as
/// `vdr_rpu_data_payload` reads them.
pub open spec fn spec_vdr_rpu_data_payload(bits: Seq<bool>, pos: int, h: RpuNalView) -> Result<
    int,
    DemuxError,
> {
    match spec_rpu_data_mapping(bits, pos, h) {
        Err(e) => Err(e),
        Ok(p) => spec_rpu_data_nlq(bits, p, h),
    }
}

/// The byte alignment and trailing CRC that close a full RPU read.
pub open spec fn spec_read_crc(bits: Seq<bool>, pos: int, h: RpuNalView) -> Result<
    (RpuNalView, int),
    DemuxError,
> {
    let up = pos + ((8 - pos % 8) % 8);
    if up > bits.len() {
        Err(DemuxError::Truncated)
    } else {
        match spec_read_n(bits, up, 32) {
            Err(e) => Err(e),
            Ok(crc) => Ok((RpuNalView { rpu_data_crc32: crc.0 as u32, ..h }, crc.1)),
        }
    }
}

/// The payload sections of a full RPU read, given the decoded header.
pub open spec fn spec_read_rpu_tail(bits: Seq<bool>, pos: int, h: RpuNalView) -> Result<
    (RpuNalView, int),
    DemuxError,
> {
    let pay: Result<(RpuNalView, int), DemuxError> = if h.rpu_type == 2 {
        let mp: Result<(RpuNalView, int), DemuxError> = if !h.use_prev_vdr_rpu_flag {
            match spec_vdr_rpu_data_payload(bits, pos, h) {
                Err(e) => Err(e),
                Ok(p) => Ok((RpuNalView { has_vdr_rpu_data: true, has_nlq_data: true, ..h }, p)),
            }
        } else {
            Ok((h, pos))
        };
        match mp {
            Err(e) => Err(e),
            Ok(hp2) => {
                if hp2.0.vdr_dm_metadata_present_flag {
                    match spec_vdr_dm(bits, hp2.1) {
                        Err(e) => Err(e),
                        Ok(t) => Ok((RpuNalView { has_vdr_dm_data: true, ..hp2.0 }, t.1)),
                    }
                } else {
                    Ok(hp2)
                }
            },
        }
    } else {
        Ok((h, pos))
    };
    match pay {
        Err(e) => Err(e),
        Ok(hp3) => spec_read_crc(bits, hp3.1, hp3.0),
    }
}

/// A whole RPU read: validated header, payloads when present, byte
/// alignment, and the trailing CRC.
#[verifier::opaque]
pub open spec fn spec_read_rpu(bits: Seq<bool>, pos: int, header_only: bool) -> Result<
    (RpuNalView, int),
    DemuxError,
> {
    match spec_parse_header_validated(bits, pos) {
        Err(e) => Err(e),
        Ok(hp) => {
            let h = RpuNalView { header_end: hp.1, ..hp.0 };
            if header_only {
                Ok((h, hp.1))
            } else {
                spec_read_rpu_tail(bits, hp.1, h)
            }
        },
    }
}

/// Reads the mapping and NLQ payloads into the record.
pub fn vdr_rpu_data_payload(reader: &mut BitVecReader, rpu_nal: &mut RpuNal) -> (r: Result<
    (),
    DemuxError,
>)
    requires
        old(reader).wf(),
    ensures
        final(reader).wf(),
        final(reader).spec_bits() == old(reader).spec_bits(),
        match spec_vdr_rpu_data_payload(
            old(reader).spec_bits(),
            old(reader).spec_pos(),
            old(rpu_nal)@,
        ) {
            Ok(p) => r == Ok::<(), DemuxError>(()) && final(reader).spec_pos() == p
                && final(rpu_nal)@ == (RpuNalView { has_vdr_rpu_data: true, has_nlq_data: true, ..old(rpu_nal)@ })
                && (final(rpu_nal).vdr_rpu_data matches Some(d) && mapping_shape_ok(
                d,
                old(rpu_nal)@.num_pivots_minus_2,
            )) && (final(rpu_nal).nlq_data matches Some(nd) && nlq_shape_ok(
                nd,
                old(rpu_nal).nlq_num_pivots_minus2 as int + 1,
            )),
            Err(e) => r matches Err(e2) && e2 == e,
        },
{
    let vdr_rpu_data = match rpu_data_mapping(reader, rpu_nal) {
        Ok(v) => v,
        Err(e) => {
            return Err(e);
        },
    };
    let nlq_data = match rpu_data_nlq(reader, rpu_nal) {
        Ok(v) => v,
        Err(e) => {
            return Err(e);
        },
    };
    rpu_nal.vdr_rpu_data = Some(vdr_rpu_data);
    rpu_nal.nlq_data = Some(nlq_data);
    Ok(())
}

/// Reads a whole RPU from the reader's position: validated header,
/// payloads, alignment, CRC.
#[verifier::rlimit(100)]
#[verifier::spinoff_prover]
pub fn read_rpu_data(reader: &mut BitVecReader, header_only: bool) -> (r: Result<
    RpuNal,
    DemuxError,
>)
    requires
        old(reader).wf(),
    ensures
        final(reader).wf(),
        final(reader).spec_bits() == old(reader).spec_bits(),
        match spec_read_rpu(old(reader).spec_bits(), old(reader).spec_pos(), header_only) {
            Ok(hp) => r matches Ok(nal) && nal@ == hp.0 && final(reader).spec_pos() == hp.1 && (
            nal.vdr_rpu_data matches Some(d) ==> mapping_shape_ok(d, nal@.num_pivots_minus_2)) && (
            nal.nlq_data matches Some(nd) ==> nlq_shape_ok(
                nd,
                nal.nlq_num_pivots_minus2 as int + 1,
            )) && (nal.vdr_dm_data matches Some(dd) ==> dd.ext_metadata_blocks@.len()
                == dd.num_ext_blocks),
            Err(e) => r matches Err(e2) && e2 == e,
        },
{
    proof {
        reveal(spec_read_rpu);
    }
    let mut rpu_nal = match rpu_data_header(reader) {
        Ok(v) => v,
        Err(e) => {
            return Err(e);
        },
    };
    rpu_nal.header_end = reader.pos();
    if !header_only {
        match read_rpu_tail(reader, &mut rpu_nal) {
            Ok(_) => (),
            Err(e) => {
                return Err(e);
            },
        }
    }
    Ok(rpu_nal)
}

/// Reads the payload sections, the alignment and the CRC of an RPU.
#[verifier::rlimit(100)]
#[verifier::spinoff_prover]
fn read_rpu_tail(reader: &mut BitVecReader, rpu_nal: &mut RpuNal) -> (r: Result<(), DemuxError>)
    requires
        old(reader).wf(),
    ensures
        final(reader).wf(),
        final(reader).spec_bits() == old(reader).spec_bits(),
        match spec_read_rpu_tail(old(reader).spec_bits(), old(reader).spec_pos(), old(rpu_nal)@) {
            Ok(hp) => r == Ok::<(), DemuxError>(()) && final(rpu_nal)@ == hp.0
                && final(reader).spec_pos() == hp.1 && (old(rpu_nal).vdr_rpu_data is None ==> (
            final(rpu_nal).vdr_rpu_data matches Some(d) ==> mapping_shape_ok(
                d,
                final(rpu_nal)@.num_pivots_minus_2,
            ))) && (old(rpu_nal).nlq_data is None ==> (final(rpu_nal).nlq_data matches Some(nd)
                ==> nlq_shape_ok(nd, final(rpu_nal).nlq_num_pivots_minus2 as int + 1))) && (old(
                rpu_nal,
            ).vdr_dm_data is None ==> (final(rpu_nal).vdr_dm_data matches Some(dd)
                ==> dd.ext_metadata_blocks@.len() == dd.num_ext_blocks)),
            Err(e) => r matches Err(e2) && e2 == e,
        },
{
    if rpu_nal.rpu_type == 2 {
        if !rpu_nal.use_prev_vdr_rpu_flag {
            match vdr_rpu_data_payload(reader, rpu_nal) {
                Ok(_) => (),
                Err(e) => {
                    return Err(e);
                },
            }
        }
        if rpu_nal.vdr_dm_metadata_present_flag {
            let dm = match vdr_dm_data_payload(reader) {
                Ok(v) => v,
                Err(e) => {
                    return Err(e);
                },
            };
            rpu_nal.vdr_dm_data = Some(dm);
        }
    }
    match reader.align_to_byte() {
        Ok(_) => (),
        Err(e) => {
            return Err(e);
        },
    }
    let crc = match reader.get_n(32) {
        Ok(v) => v,
        Err(e) => {
            return Err(e);
        },
    };
    proof {
        vstd::arithmetic::power2::lemma2_to64();
    }
    rpu_nal.rpu_data_crc32 = crc as u32;
    Ok(())
}

/// A full parse of one RPU NAL payload (the two NAL-header bytes, then
/// the escaped RPU bits): strip the NAL header, clear the escapes, read
/// and validate.
pub open spec fn spec_parse_dovi_rpu(data: Seq<u8>) -> Result<(RpuNalView, int), DemuxError> {
    if data.len() > usize::MAX as int / 64 {
        Err(DemuxError::Malformed)
    } else if data.len() < 2 {
        Err(DemuxError::Truncated)
    } else {
        spec_read_rpu(bytes_to_bits(crate::emulation::clear_ep(data.skip(2))), 0, false)
    }
}

/// Parses one RPU NAL payload into its record.
pub fn parse_dovi_rpu(data: &[u8]) -> (r: Result<RpuNal, DemuxError>)
    ensures
        match spec_parse_dovi_rpu(data@) {
            Ok(hp) => r matches Ok(nal) && nal@ == hp.0 && (nal.vdr_rpu_data matches Some(d)
                ==> mapping_shape_ok(d, nal@.num_pivots_minus_2)) && (nal.nlq_data matches Some(nd)
                ==> nlq_shape_ok(nd, nal.nlq_num_pivots_minus2 as int + 1)) && (
            nal.vdr_dm_data matches Some(dd) ==> dd.ext_metadata_blocks@.len()
                == dd.num_ext_blocks),
            Err(e) => r matches Err(e2) && e2 == e,
        },
{
    if data.len() > usize::MAX / 64 {
        return Err(DemuxError::Malformed);
    }
    if data.len() < 2 {
        return Err(DemuxError::Truncated);
    }
    let mut rest: Vec<u8> = Vec::new();
    let mut i: usize = 2;
    while i < data.len()
        invariant
            2 <= i <= data@.len(),
            rest@ == data@.subrange(2, i as int),
        decreases data@.len() - i,
    {
        let b = data[i];
        rest.push(b);
        proof {
            assert(data@.subrange(2, i + 1) =~= data@.subrange(2, i as int).push(b));
        }
        i += 1;
    }
    proof {
        assert(rest@ =~= data@.skip(2));
        crate::emulation::lemma_clear_ep_go_len(rest@, 0);
    }
    let cleared = crate::emulation::clear_start_code_emulation_prevention_3_byte(rest.as_slice());
    let mut reader = BitVecReader::new(cleared.as_slice());
    read_rpu_data(&mut reader, false)
}

/// The whole per-RPU transform the demultiplexer applies under a
/// conversion mode: parse and validate, rewrite to profile 8.1 under
/// mode two, re-encode the header, splice the tail bits unchanged,
/// re-escape, and put the NAL-header bytes back in front.
/// The transform on the RPU bits proper (after the two NAL-header
/// bytes): clear, read, optionally rewrite, re-encode and re-escape.
#[verifier::opaque]
pub open spec fn spec_rpu_body(rest: Seq<u8>, mode: u8) -> Result<Seq<u8>, DemuxError> {
    let bits = bytes_to_bits(crate::emulation::clear_ep(rest));
    match spec_read_rpu(bits, 0, false) {
        Err(e) => Err(e),
        Ok(hp) => {
            let h2 = if mode == 2 {
                to_81_spec(hp.0)
            } else {
                hp.0
            };
            let out_bits = spec_encode_header(h2) + bits.skip(h2.header_end);
            Ok(crate::emulation::add_ep(bits_to_bytes_padded(out_bits)))
        },
    }
}

pub open spec fn spec_rpu_process(data: Seq<u8>, mode: u8) -> Result<Seq<u8>, DemuxError> {
    if mode != 0 && mode != 2 {
        Err(DemuxError::Unsupported)
    } else if data.len() > usize::MAX as int / 64 {
        Err(DemuxError::Malformed)
    } else if data.len() < 2 {
        Err(DemuxError::Truncated)
    } else {
        match spec_rpu_body(data.skip(2), mode) {
            Err(e) => Err(e),
            Ok(s) => Ok(data.take(2) + s),
        }
    }
}

/// Whatever the transform emits is properly escaped, so it holds no
/// false start code: no byte at or below two follows two zeros.
pub proof fn lemma_rpu_body_escaped(rest: Seq<u8>, mode: u8)
    ensures
        ({
            let out = spec_rpu_body(rest, mode)->Ok_0;
            spec_rpu_body(rest, mode) is Ok ==> crate::emulation::properly_escaped(out) && (forall|
                i: int,
            |
                0 <= i && i + 2 < out.len() ==> !(#[trigger] out[i] == 0 && out[i + 1] == 0 && out[i
                    + 2] <= 2))
        }),
{
    reveal(spec_rpu_body);
    if spec_rpu_body(rest, mode) is Ok {
        let bits = bytes_to_bits(crate::emulation::clear_ep(rest));
        match spec_read_rpu(bits, 0, false) {
            Err(_) => {},
            Ok(hp) => {
                let h2 = if mode == 2 {
                    to_81_spec(hp.0)
                } else {
                    hp.0
                };
                let out_bits = spec_encode_header(h2) + bits.skip(h2.header_end);
                crate::emulation::lemma_add_ep_escaped(bits_to_bytes_padded(out_bits));
                crate::emulation::lemma_escaped_no_false_start(
                    crate::emulation::add_ep(bits_to_bytes_padded(out_bits)),
                );
            },
        }
    }
}

/// Applies the RPU transform of `mode` to one NAL payload.
#[verifier::rlimit(100)]
#[verifier::spinoff_prover]
pub fn process_rpu_nal(data: &[u8], mode: u8) -> (r: Result<Vec<u8>, DemuxError>)
    ensures
        match spec_rpu_process(data@, mode) {
            Ok(s) => r matches Ok(v) && v@ == s,
            Err(e) => r matches Err(e2) && e2 == e,
        },
{
    if mode != 0 && mode != 2 {
        return Err(DemuxError::Unsupported);
    }
    if data.len() > usize::MAX / 64 {
        return Err(DemuxError::Malformed);
    }
    if data.len() < 2 {
        return Err(DemuxError::Truncated);
    }
    let mut rest: Vec<u8> = Vec::new();
    let mut i: usize = 2;
    while i < data.len()
        invariant
            2 <= i <= data@.len(),
            rest@ == data@.subrange(2, i as int),
        decreases data@.len() - i,
    {
        let b = data[i];
        rest.push(b);
        proof {
            assert(data@.subrange(2, i + 1) =~= data@.subrange(2, i as int).push(b));
        }
        i += 1;
    }
    proof {
        assert(rest@ =~= data@.skip(2));
    }
    let body = match process_rpu_body(&rest, mode) {
        Ok(v) => v,
        Err(e) => {
            return Err(e);
        },
    };
    let mut out: Vec<u8> = Vec::new();
    out.push(data[0]);
    out.push(data[1]);
    let mut j: usize = 0;
    while j < body.len()
        invariant
            j <= body@.len(),
            data@.len() >= 2,
            out@ == data@.take(2) + body@.subrange(0, j as int),
        decreases body@.len() - j,
    {
        let b = body[j];
        out.push(b);
        proof {
            assert(data@.take(2) + body@.subrange(0, j + 1) =~= (data@.take(2) + body@.subrange(
                0,
                j as int,
            )).push(b));
        }
        j += 1;
    }
    proof {
        assert(out@ =~= data@.take(2) + body@);
    }
    Ok(out)
}

/// Unfolds the body transform on a successful read.
proof fn lemma_rpu_body_unfold(rest: Seq<u8>, mode: u8)
    ensures
        spec_read_rpu(bytes_to_bits(crate::emulation::clear_ep(rest)), 0, false) matches Ok(hp)
            ==> spec_rpu_body(rest, mode) == Ok::<Seq<u8>, DemuxError>(
            crate::emulation::add_ep(
                bits_to_bytes_padded(
                    spec_encode_header(
                        if mode == 2 {
                            to_81_spec(hp.0)
                        } else {
                            hp.0
                        },
                    ) + bytes_to_bits(crate::emulation::clear_ep(rest)).skip(
                        (if mode == 2 {
                            to_81_spec(hp.0)
                        } else {
                            hp.0
                        }).header_end,
                    ),
                ),
            ),
        ),
        spec_read_rpu(bytes_to_bits(crate::emulation::clear_ep(rest)), 0, false) matches Err(e)
            ==> spec_rpu_body(rest, mode) == Err::<Seq<u8>, DemuxError>(e),
{
    reveal(spec_rpu_body);
    reveal(spec_read_rpu);
    if mode == 2 {
        match spec_read_rpu(bytes_to_bits(crate::emulation::clear_ep(rest)), 0, false) {
            Ok(hp) => {
                assert(to_81_spec(hp.0).header_end == hp.0.header_end);
            },
            Err(_) => {},
        }
    }
}

/// A successful full read yields a serializable header whose end lies
/// within the buffer.
#[verifier::rlimit(100)]
#[verifier::spinoff_prover]
proof fn lemma_read_rpu_wf(bits: Seq<bool>, pos: int)
    requires
        0 <= pos <= bits.len(),
    ensures
        spec_read_rpu(bits, pos, false) matches Ok(hp) ==> wf_header(hp.0) && 0
            <= hp.0.header_end <= bits.len() && to_81_spec(hp.0).header_end == hp.0.header_end
            && wf_header(to_81_spec(hp.0)),
{
    reveal(spec_read_rpu);
    lemma_parse_header_wf(bits, pos);
}

/// The transform on the RPU bits proper.
#[verifier::rlimit(100)]
#[verifier::spinoff_prover]
fn process_rpu_body(rest: &Vec<u8>, mode: u8) -> (r: Result<Vec<u8>, DemuxError>)
    requires
        rest@.len() <= usize::MAX / 64,
    ensures
        match spec_rpu_body(rest@, mode) {
            Ok(s) => r matches Ok(v) && v@ == s,
            Err(e) => r matches Err(e2) && e2 == e,
        },
{
    proof {
        crate::emulation::lemma_clear_ep_go_len(rest@, 0);
        lemma_rpu_body_unfold(rest@, mode);
    }
    let cleared = crate::emulation::clear_start_code_emulation_prevention_3_byte(rest.as_slice());
    let mut reader = BitVecReader::new(cleared.as_slice());
    let ghost bits = reader.spec_bits();
    let mut rpu_nal = match read_rpu_data(&mut reader, false) {
        Ok(v) => v,
        Err(e) => {
            return Err(e);
        },
    };
    proof {
        lemma_read_rpu_wf(bits, 0);
    }
    let ghost hp0 = spec_read_rpu(bits, 0, false)->Ok_0.0;
    proof {
        assert(rpu_nal@ == hp0);
        assert(wf_header(hp0));
        assert(0 <= hp0.header_end <= bits.len());
    }
    if mode == 2 {
        rpu_nal.to_81();
    }
    let ghost h2 = rpu_nal@;
    proof {
        assert(h2 == (if mode == 2 {
            to_81_spec(hp0)
        } else {
            hp0
        }));
        assert(wf_header(h2));
        assert(h2.header_end == hp0.header_end);
    }
    let mut writer = BitVecWriter::new();
    write_rpu_data(&rpu_nal, &mut writer);
    proof {
        assert(writer.spec_bits() =~= spec_encode_header(h2));
    }
    writer.write_bitslice(reader.get_inner(), rpu_nal.header_end);
    proof {
        assert(writer.spec_bits() == spec_encode_header(h2) + bits.skip(h2.header_end));
    }
    let mut body = writer.as_bytes();
    crate::emulation::add_start_code_emulation_prevention_3_byte(&mut body);
    Ok(body)
}

} // verus!