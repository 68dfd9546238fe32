//! Page-state templates for screen recognition: validation of a catalog of
//! pages, markers and regions of interest, the scaling of reference
//! coordinates onto a screenshot, ROI crops, and the average-hash
//! signatures that tell whether two inventory screenshots show the same page.
//!
//! A threshold that the templates give as an `f32` is held here as its
//! IEEE-754 bit pattern (`f32::to_bits`); whether it lies in `0.0..=1.0`
//! is decided on those bits.
use std::path::PathBuf;
use vstd::prelude::*;

use crate::text::chars_equal;
use crate::text::str_eq;
use crate::text::is_prefix;
use crate::text::starts_with;
use crate::text::chars_of;
use crate::text::decimal;
use crate::text::trim;
use crate::text::trim_bounds;
use crate::text::u64_to_decimal;
use crate::text::seq_lt;
use crate::text::str_lt;
use crate::text::lemma_seq_lt_irreflexive;
use crate::text::lemma_seq_lt_transitive;
use crate::text::lemma_seq_lt_total;

verus! {

#[verifier::external_type_specification]
#[verifier::external_body]
pub struct ExSerdeJsonError(serde_json::Error);

#[verifier::external_type_specification]
#[verifier::external_body]
pub struct ExIoError(std::io::Error);

#[verifier::external_type_specification]
#[verifier::external_body]
pub struct ExImageError(image::ImageError);

pub struct ReferenceResolution {
    pub width: u32,
    pub height: u32,
}

#[derive(Clone, Copy, Debug, PartialEq, Eq, Structural)]
pub struct RoiRect {
    pub x: u32,
    pub y: u32,
    pub width: u32,
    pub height: u32,
}

#[derive(Clone, Copy, Debug, PartialEq, Eq, Structural)]
pub struct ResolvedRoiRect {
    pub x: u32,
    pub y: u32,
    pub width: u32,
    pub height: u32,
}

#[derive(Clone, Copy, Debug, PartialEq, Eq, Structural)]
pub enum PageConfirmationStrategy {
    TemplateFingerprint,
    TextHint,
    IconTemplate,
    DominantColor,
}

impl PageConfirmationStrategy {
    pub open spec fn spec_label(self) -> Seq<char> {
        match self {
            PageConfirmationStrategy::TemplateFingerprint => "template_fingerprint"@,
            PageConfirmationStrategy::TextHint => "text_hint"@,
            PageConfirmationStrategy::IconTemplate => "icon_template"@,
            PageConfirmationStrategy::DominantColor => "dominant_color"@,
        }
    }

    pub fn label(self) -> (res: &'static str)
        ensures
            res@ == self.spec_label(),
    {
        match self {
            PageConfirmationStrategy::TemplateFingerprint => "template_fingerprint",
            PageConfirmationStrategy::TextHint => "text_hint",
            PageConfirmationStrategy::IconTemplate => "icon_template",
            PageConfirmationStrategy::DominantColor => "dominant_color",
        }
    }
}

#[derive(Clone, Copy, Debug, PartialEq, Eq, Structural)]
pub enum TemplateMatchMethod {
    NormalizedGrayscaleMae,
}

impl Default for TemplateMatchMethod {
    fn default() -> (res: Self)
        ensures
            res == TemplateMatchMethod::NormalizedGrayscaleMae,
    {
        TemplateMatchMethod::NormalizedGrayscaleMae
    }
}

#[derive(Clone, Copy, Debug, PartialEq, Eq, Structural)]
pub enum RoiPurpose {
    PageAnchor,
    NumericOcr,
    ShortTextOcr,
    IconTemplate,
    ColorFingerprint,
    Generic,
}

#[derive(Clone, Copy, Debug, PartialEq, Eq, Structural)]
pub enum RoiPreprocessStep {
    Grayscale,
    Upscale2x,
    Threshold { cutoff: u8 },
}

#[derive(Clone, Copy, Debug, PartialEq, Eq, Structural)]
pub enum LowConfidencePolicy {
    AutoAccept,
    QueueReview,
    Reject,
}

impl Default for LowConfidencePolicy {
    fn default() -> (res: Self)
        ensures
            res == LowConfidencePolicy::QueueReview,
    {
        LowConfidencePolicy::QueueReview
    }
}

pub struct PageActionDefinition {
    pub action_id: String,
    pub description: String,
    pub target_page_id: Option<String>,
}

/// A marker that confirms a page. `pass_threshold` holds the bits of the
/// `f32` threshold.
pub struct PageConfirmationMarker {
    pub marker_id: String,
    pub rect: RoiRect,
    pub strategy: PageConfirmationStrategy,
    pub match_method: TemplateMatchMethod,
    pub template_path: Option<String>,
    pub pass_threshold: Option<u32>,
    pub expected_hint: Option<String>,
    pub note: Option<String>,
}

/// A region of interest. `confidence_threshold` holds the bits of the `f32`
/// threshold.
pub struct RoiDefinition {
    pub roi_id: String,
    pub display_name: String,
    pub rect: RoiRect,
    pub purpose: RoiPurpose,
    pub preprocess_steps: Vec<RoiPreprocessStep>,
    pub confidence_threshold: Option<u32>,
    pub low_confidence_policy: LowConfidencePolicy,
}

pub struct PageStateDefinition {
    pub page_id: String,
    pub display_name: String,
    pub reference_resolution: ReferenceResolution,
    pub confirmation_markers: Vec<PageConfirmationMarker>,
    pub rois: Vec<RoiDefinition>,
    pub supported_actions: Vec<PageActionDefinition>,
    pub recovery_actions: Vec<PageActionDefinition>,
}

pub struct PageStateCatalog {
    pub pages: Vec<PageStateDefinition>,
}

/// What is wrong with a page catalog. `ThresholdOutOfRange` carries the bits
/// of the offending threshold: its message shows the `f32`, which the
/// application renders.
#[allow(inconsistent_fields)]
#[derive(Debug)]
pub enum VisionConfigError {
    ReadConfigFile { path: PathBuf, source: std::io::Error },
    DeserializeJson { source: serde_json::Error },
    InvalidConfig { message: String },
    ThresholdOutOfRange { field_name: String, threshold_bits: u32 },
}

pub enum VisionIssue {
    InvalidConfig(Seq<char>),
    ThresholdOutOfRange(Seq<char>, u32),
}

pub open spec fn vision_issue(e: VisionConfigError) -> Option<VisionIssue> {
    match e {
        VisionConfigError::InvalidConfig { message } => Some(VisionIssue::InvalidConfig(message@)),
        VisionConfigError::ThresholdOutOfRange { field_name, threshold_bits } => Some(
            VisionIssue::ThresholdOutOfRange(field_name@, threshold_bits),
        ),
        _ => None,
    }
}

pub open spec fn result_issue(r: Result<(), VisionConfigError>) -> Option<VisionIssue> {
    match r {
        Ok(()) => None,
        Err(e) => vision_issue(e),
    }
}

// ---------------------------------------------------------------------------
// thresholds and rectangles

/// The `f32` with these bits lies in `0.0..=1.0`: it is `+0.0` up to `1.0`
/// (positive floats order as their bits do), or it is `-0.0`. NaN and every
/// other negative value are outside.
pub open spec fn threshold_in_unit_range(bits: u32) -> bool {
    bits <= 0x3F80_0000 || bits == 0x8000_0000
}

pub fn is_threshold_in_unit_range(bits: u32) -> (res: bool)
    ensures
        res == threshold_in_unit_range(bits),
{
    bits <= 0x3F80_0000 || bits == 0x8000_0000
}

pub open spec fn resolution_message(field_name: Seq<char>, width: u32, height: u32) -> Seq<char> {
    field_name + " 必须为正尺寸，当前为 "@ + decimal(width as nat) + "x"@ + decimal(height as nat)
}

impl ReferenceResolution {
    pub fn validate(&self, field_name: &str) -> (res: Result<(), VisionConfigError>)
        ensures
            result_issue(res) == if self.width == 0 || self.height == 0 {
                Some(VisionIssue::InvalidConfig(resolution_message(field_name@, self.width, self.height)))
            } else {
                None
            },
            res is Ok <==> self.width > 0 && self.height > 0,
    {
        if self.width == 0 || self.height == 0 {
            let mut message = field_name.to_string();
            message.append(" 必须为正尺寸，当前为 ");
            message.append(u64_to_decimal(self.width as u64).as_str());
            message.append("x");
            message.append(u64_to_decimal(self.height as u64).as_str());
            return Err(VisionConfigError::InvalidConfig { message });
        }
        Ok(())
    }
}

pub open spec fn rect_size_message(region_id: Seq<char>) -> Seq<char> {
    "区域 `"@ + region_id + "` 的尺寸必须大于 0"@
}

pub open spec fn rect_bounds_message(region_id: Seq<char>, r: RoiRect, w: u32, h: u32) -> Seq<char> {
    "区域 `"@ + region_id + "` 超出参考分辨率边界：rect=("@ + decimal(r.x as nat) + ", "@ + decimal(
        r.y as nat,
    ) + ", "@ + decimal(r.width as nat) + ", "@ + decimal(r.height as nat) + ")，reference="@
        + decimal(w as nat) + "x"@ + decimal(h as nat)
}

/// The issue of a rectangle inside a reference resolution: an empty
/// rectangle, or one that reaches past the right or bottom edge.
pub open spec fn rect_issue(r: RoiRect, w: u32, h: u32, region_id: Seq<char>) -> Option<VisionIssue> {
    if r.width == 0 || r.height == 0 {
        Some(VisionIssue::InvalidConfig(rect_size_message(region_id)))
    } else if r.x + r.width > w || r.y + r.height > h {
        Some(VisionIssue::InvalidConfig(rect_bounds_message(region_id, r, w, h)))
    } else {
        None
    }
}

fn push_decimal(s: &mut String, n: u32)
    ensures
        final(s)@ == old(s)@ + decimal(n as nat),
{
    let d = u64_to_decimal(n as u64);
    s.append(d.as_str());
}

impl RoiRect {
    pub fn validate_within(&self, resolution: &ReferenceResolution, region_id: &str) -> (res: Result<(), VisionConfigError>)
        ensures
            result_issue(res) == rect_issue(*self, resolution.width, resolution.height, region_id@),
            res is Ok <==> rect_issue(*self, resolution.width, resolution.height, region_id@) is None,
    {
        if self.width == 0 || self.height == 0 {
            let mut message = "区域 `".to_string();
            message.append(region_id);
            message.append("` 的尺寸必须大于 0");
            return Err(VisionConfigError::InvalidConfig { message });
        }
        let right: u64 = self.x as u64 + self.width as u64;
        let bottom: u64 = self.y as u64 + self.height as u64;
        if right > resolution.width as u64 || bottom > resolution.height as u64 {
            let mut message = "区域 `".to_string();
            message.append(region_id);
            message.append("` 超出参考分辨率边界：rect=(");
            push_decimal(&mut message, self.x);
            message.append(", ");
            push_decimal(&mut message, self.y);
            message.append(", ");
            push_decimal(&mut message, self.width);
            message.append(", ");
            push_decimal(&mut message, self.height);
            message.append(")，reference=");
            push_decimal(&mut message, resolution.width);
            message.append("x");
            push_decimal(&mut message, resolution.height);
            return Err(VisionConfigError::InvalidConfig { message });
        }
        Ok(())
    }
}

pub open spec fn threshold_issue(threshold: Option<u32>, field_name: Seq<char>) -> Option<VisionIssue> {
    match threshold {
        Some(bits) => if threshold_in_unit_range(bits) {
            None
        } else {
            Some(VisionIssue::ThresholdOutOfRange(field_name, bits))
        },
        None => None,
    }
}

fn validate_threshold(threshold: Option<u32>, field_name: String) -> (res: Result<(), VisionConfigError>)
    ensures
        result_issue(res) == threshold_issue(threshold, field_name@),
        res is Ok <==> threshold_issue(threshold, field_name@) is None,
{
    match threshold {
        Some(bits) => if is_threshold_in_unit_range(bits) {
            Ok(())
        } else {
            Err(VisionConfigError::ThresholdOutOfRange { field_name, threshold_bits: bits })
        },
        None => Ok(()),
    }
}

/// A reference coordinate scaled onto a screenshot, rounded half up:
/// `(value * actual + reference / 2) / reference`.
pub open spec fn scaled(value: u32, actual: u32, reference: u32) -> int {
    (value * actual + reference / 2) / (reference as int)
}

pub fn scale_dimension(value: u32, actual: u32, reference: u32) -> (res: u32)
    requires
        reference > 0,
        scaled(value, actual, reference) <= u32::MAX,
    ensures
        res == scaled(value, actual, reference),
{
    let a: u64 = value as u64;
    let b: u64 = actual as u64;
    assert(a * b <= 0xFFFF_FFFE_0000_0001u64) by (nonlinear_arith)
        requires
            a <= 0xFFFF_FFFFu64,
            b <= 0xFFFF_FFFFu64,
    ;
    let product: u64 = a * b;
    ((product + (reference / 2) as u64) / reference as u64) as u32
}

/// The rectangle of `rect` on a screenshot of `image_width` by
/// `image_height`, each edge scaled from the reference resolution; width and
/// height are at least one pixel.
pub open spec fn resolved_rect(rect: RoiRect, reference: ReferenceResolution, image_width: u32, image_height: u32) -> ResolvedRoiRect {
    let w = scaled(rect.width, image_width, reference.width);
    let h = scaled(rect.height, image_height, reference.height);
    ResolvedRoiRect {
        x: scaled(rect.x, image_width, reference.width) as u32,
        y: scaled(rect.y, image_height, reference.height) as u32,
        width: if w < 1 { 1 } else { w as u32 },
        height: if h < 1 { 1 } else { h as u32 },
    }
}

/// A rectangle inside a reference resolution stays, once scaled, within
/// `u32`.
pub open spec fn fits_scaling(rect: RoiRect, reference: ReferenceResolution, image_width: u32, image_height: u32) -> bool {
    &&& reference.width > 0 && reference.height > 0
    &&& scaled(rect.x, image_width, reference.width) <= u32::MAX
    &&& scaled(rect.y, image_height, reference.height) <= u32::MAX
    &&& scaled(rect.width, image_width, reference.width) <= u32::MAX
    &&& scaled(rect.height, image_height, reference.height) <= u32::MAX
}

proof fn lemma_scaled_within(value: u32, actual: u32, reference: u32)
    requires
        reference > 0,
        value <= reference,
    ensures
        0 <= scaled(value, actual, reference) <= actual,
{
    assert(value * actual <= reference * actual) by (nonlinear_arith)
        requires
            value <= reference,
    ;
    assert((value * actual + reference / 2) / (reference as int) <= actual) by (nonlinear_arith)
        requires
            value * actual <= reference * actual,
            reference > 0,
    ;
    assert(0 <= (value * actual + reference / 2) / (reference as int)) by (nonlinear_arith)
        requires
            reference > 0,
    ;
}

/// A rectangle that passed `validate_within` can be scaled onto any
/// screenshot.
pub proof fn lemma_valid_rect_fits(rect: RoiRect, reference: ReferenceResolution, image_width: u32, image_height: u32)
    requires
        reference.width > 0 && reference.height > 0,
        rect_issue(rect, reference.width, reference.height, seq![]) is None,
    ensures
        fits_scaling(rect, reference, image_width, image_height),
{
    lemma_scaled_within(rect.x, image_width, reference.width);
    lemma_scaled_within(rect.y, image_height, reference.height);
    lemma_scaled_within(rect.width, image_width, reference.width);
    lemma_scaled_within(rect.height, image_height, reference.height);
}

pub fn resolve_roi_rect(rect: &RoiRect, reference: &ReferenceResolution, image_width: u32, image_height: u32) -> (res: ResolvedRoiRect)
    requires
        fits_scaling(*rect, ReferenceResolution { width: reference.width, height: reference.height }, image_width, image_height),
    ensures
        res == resolved_rect(*rect, ReferenceResolution { width: reference.width, height: reference.height }, image_width, image_height),
{
    let x = scale_dimension(rect.x, image_width, reference.width);
    let y = scale_dimension(rect.y, image_height, reference.height);
    let w = scale_dimension(rect.width, image_width, reference.width);
    let h = scale_dimension(rect.height, image_height, reference.height);
    ResolvedRoiRect {
        x,
        y,
        width: if w < 1 { 1 } else { w },
        height: if h < 1 { 1 } else { h },
    }
}

/// A resolved rectangle is usable on the screenshot: not empty, its corner
/// inside, and its far edges within the image.
pub open spec fn resolved_rect_valid(rect: ResolvedRoiRect, image_width: u32, image_height: u32) -> bool {
    &&& rect.width != 0 && rect.height != 0
    &&& rect.x < image_width && rect.y < image_height
    &&& rect.x + rect.width <= image_width && rect.y + rect.height <= image_height
}

/// Why a region could not be cropped from a screenshot.
#[derive(Debug)]
pub enum RoiCropError {
    InvalidConfig(VisionConfigError),
    DecodePng { source: image::ImageError },
    EncodePng { source: image::ImageError },
    RoiNotFound { page_id: String, roi_id: String },
    InvalidResolvedRect { page_id: String, roi_id: String, image_width: u32, image_height: u32, rect: ResolvedRoiRect },
}

pub fn validate_resolved_rect(page_id: &str, roi_id: &str, rect: ResolvedRoiRect, image_width: u32, image_height: u32) -> (res: Result<(), RoiCropError>)
    ensures
        res is Ok <==> resolved_rect_valid(rect, image_width, image_height),
        res matches Err(RoiCropError::InvalidResolvedRect { page_id: p, roi_id: r, image_width: w, image_height: h, rect: rr })
            ==> p@ == page_id@ && r@ == roi_id@ && w == image_width && h == image_height && rr == rect,
        res is Err ==> res matches Err(RoiCropError::InvalidResolvedRect { .. }),
{
    if rect.width == 0 || rect.height == 0 {
        return Err(RoiCropError::InvalidResolvedRect {
            page_id: page_id.to_string(),
            roi_id: roi_id.to_string(),
            image_width,
            image_height,
            rect,
        });
    }
    let right: u64 = rect.x as u64 + rect.width as u64;
    let bottom: u64 = rect.y as u64 + rect.height as u64;
    if rect.x >= image_width || rect.y >= image_height || right > image_width as u64 || bottom > image_height as u64 {
        return Err(RoiCropError::InvalidResolvedRect {
            page_id: page_id.to_string(),
            roi_id: roi_id.to_string(),
            image_width,
            image_height,
            rect,
        });
    }
    Ok(())
}


// ---------------------------------------------------------------------------
// validating pages

pub open spec fn marker_field(page_id: Seq<char>, marker_id: Seq<char>) -> Seq<char> {
    "页面 `"@ + page_id + "` 的 marker `"@ + marker_id + "` pass_threshold"@
}

pub open spec fn roi_field(page_id: Seq<char>, roi_id: Seq<char>) -> Seq<char> {
    "页面 `"@ + page_id + "` 的 ROI `"@ + roi_id + "` confidence_threshold"@
}

/// The issue of marker `i`, given that the markers before it passed.
pub open spec fn marker_issue(page: PageStateDefinition, i: int) -> Option<VisionIssue> {
    let m = page.confirmation_markers@[i];
    let pid = page.page_id@;
    if trim(m.marker_id@).len() == 0 {
        Some(VisionIssue::InvalidConfig("页面 `"@ + pid + "` 存在空的 marker_id"@))
    } else if exists|j: int| 0 <= j < i && #[trigger] page.confirmation_markers@[j].marker_id@ == m.marker_id@ {
        Some(VisionIssue::InvalidConfig("页面 `"@ + pid + "` 的确认特征 marker_id 重复："@ + m.marker_id@))
    } else {
        match rect_issue(m.rect, page.reference_resolution.width, page.reference_resolution.height, m.marker_id@) {
            Some(x) => Some(x),
            None => threshold_issue(m.pass_threshold, marker_field(pid, m.marker_id@)),
        }
    }
}

pub open spec fn markers_issue_from(page: PageStateDefinition, i: int) -> Option<VisionIssue>
    decreases page.confirmation_markers@.len() - i,
{
    if i < 0 || i >= page.confirmation_markers@.len() {
        None
    } else {
        match marker_issue(page, i) {
            Some(x) => Some(x),
            None => markers_issue_from(page, i + 1),
        }
    }
}

/// The issue of region `i`, given that the regions before it passed.
pub open spec fn roi_issue(page: PageStateDefinition, i: int) -> Option<VisionIssue> {
    let r = page.rois@[i];
    let pid = page.page_id@;
    if trim(r.roi_id@).len() == 0 {
        Some(VisionIssue::InvalidConfig("页面 `"@ + pid + "` 存在空的 roi_id"@))
    } else if exists|j: int| 0 <= j < i && #[trigger] page.rois@[j].roi_id@ == r.roi_id@ {
        Some(VisionIssue::InvalidConfig("页面 `"@ + pid + "` 的 roi_id 重复："@ + r.roi_id@))
    } else {
        match rect_issue(r.rect, page.reference_resolution.width, page.reference_resolution.height, r.roi_id@) {
            Some(x) => Some(x),
            None => threshold_issue(r.confidence_threshold, roi_field(pid, r.roi_id@)),
        }
    }
}

pub open spec fn rois_issue_from(page: PageStateDefinition, i: int) -> Option<VisionIssue>
    decreases page.rois@.len() - i,
{
    if i < 0 || i >= page.rois@.len() {
        None
    } else {
        match roi_issue(page, i) {
            Some(x) => Some(x),
            None => rois_issue_from(page, i + 1),
        }
    }
}

/// The first issue of a page: its reference resolution, then its markers in
/// order, then its regions in order.
pub open spec fn page_issue(page: PageStateDefinition) -> Option<VisionIssue> {
    let w = page.reference_resolution.width;
    let h = page.reference_resolution.height;
    if w == 0 || h == 0 {
        Some(VisionIssue::InvalidConfig(resolution_message("reference_resolution"@, w, h)))
    } else {
        match markers_issue_from(page, 0) {
            Some(x) => Some(x),
            None => rois_issue_from(page, 0),
        }
    }
}

fn trimmed_is_empty(s: &str) -> (res: bool)
    ensures
        res == (trim(s@).len() == 0),
{
    let chars = chars_of(s);
    let (a, b) = trim_bounds(chars.as_slice());
    a == b
}

fn formatted_issue2(a: &str, b: &str, c: &str) -> (res: String)
    ensures
        res@ == a@ + b@ + c@,
{
    let mut res = a.to_string();
    res.append(b);
    res.append(c);
    res
}

fn concat4(a: &str, b: &str, c: &str, d: &str) -> (res: String)
    ensures
        res@ == a@ + b@ + c@ + d@,
{
    let mut res = a.to_string();
    res.append(b);
    res.append(c);
    res.append(d);
    res
}

impl PageStateDefinition {
    fn marker_duplicate(&self, i: usize) -> (res: bool)
        requires
            i < self.confirmation_markers@.len(),
        ensures
            res == exists|j: int|
                0 <= j < i && #[trigger] self.confirmation_markers@[j].marker_id@
                    == self.confirmation_markers@[i as int].marker_id@,
    {
        let mut j: usize = 0;
        while j < i
            invariant
                j <= i < self.confirmation_markers@.len(),
                forall|k: int|
                    0 <= k < j ==> #[trigger] self.confirmation_markers@[k].marker_id@
                        != self.confirmation_markers@[i as int].marker_id@,
            decreases i - j,
        {
            if str_eq(
                self.confirmation_markers[j].marker_id.as_str(),
                self.confirmation_markers[i].marker_id.as_str(),
            ) {
                return true;
            }
            j += 1;
        }
        false
    }

    fn roi_duplicate(&self, i: usize) -> (res: bool)
        requires
            i < self.rois@.len(),
        ensures
            res == exists|j: int| 0 <= j < i && #[trigger] self.rois@[j].roi_id@ == self.rois@[i as int].roi_id@,
    {
        let mut j: usize = 0;
        while j < i
            invariant
                j <= i < self.rois@.len(),
                forall|k: int| 0 <= k < j ==> #[trigger] self.rois@[k].roi_id@ != self.rois@[i as int].roi_id@,
            decreases i - j,
        {
            if str_eq(self.rois[j].roi_id.as_str(), self.rois[i].roi_id.as_str()) {
                return true;
            }
            j += 1;
        }
        false
    }

    fn check_marker(&self, i: usize) -> (res: Result<(), VisionConfigError>)
        requires
            i < self.confirmation_markers@.len(),
        ensures
            result_issue(res) == marker_issue(*self, i as int),
            res is Ok <==> marker_issue(*self, i as int) is None,
    {
        let m = &self.confirmation_markers[i];
        if trimmed_is_empty(m.marker_id.as_str()) {
            return Err(VisionConfigError::InvalidConfig {
                message: formatted_issue2("页面 `", self.page_id.as_str(), "` 存在空的 marker_id"),
            });
        }
        if self.marker_duplicate(i) {
            return Err(VisionConfigError::InvalidConfig {
                message: concat4("页面 `", self.page_id.as_str(), "` 的确认特征 marker_id 重复：", m.marker_id.as_str()),
            });
        }
        m.rect.validate_within(&self.reference_resolution, m.marker_id.as_str())?;
        let mut field = "页面 `".to_string();
        field.append(self.page_id.as_str());
        field.append("` 的 marker `");
        field.append(m.marker_id.as_str());
        field.append("` pass_threshold");
        validate_threshold(m.pass_threshold, field)
    }

    fn check_roi(&self, i: usize) -> (res: Result<(), VisionConfigError>)
        requires
            i < self.rois@.len(),
        ensures
            result_issue(res) == roi_issue(*self, i as int),
            res is Ok <==> roi_issue(*self, i as int) is None,
    {
        let r = &self.rois[i];
        if trimmed_is_empty(r.roi_id.as_str()) {
            return Err(VisionConfigError::InvalidConfig {
                message: formatted_issue2("页面 `", self.page_id.as_str(), "` 存在空的 roi_id"),
            });
        }
        if self.roi_duplicate(i) {
            return Err(VisionConfigError::InvalidConfig {
                message: concat4("页面 `", self.page_id.as_str(), "` 的 roi_id 重复：", r.roi_id.as_str()),
            });
        }
        r.rect.validate_within(&self.reference_resolution, r.roi_id.as_str())?;
        let mut field = "页面 `".to_string();
        field.append(self.page_id.as_str());
        field.append("` 的 ROI `");
        field.append(r.roi_id.as_str());
        field.append("` confidence_threshold");
        validate_threshold(r.confidence_threshold, field)
    }

    /// Checks the reference resolution, then each marker and each region in
    /// order: a non-blank id not used before in the page, a rectangle inside
    /// the reference resolution, a threshold in `0.0..=1.0`.
    pub fn validate(&self) -> (res: Result<(), VisionConfigError>)
        ensures
            result_issue(res) == page_issue(*self),
            res is Ok <==> page_issue(*self) is None,
    {
        let r = self.reference_resolution.validate("reference_resolution");
        if r.is_err() {
            return r;
        }
        let mut i: usize = 0;
        while i < self.confirmation_markers.len()
            invariant
                i <= self.confirmation_markers@.len(),
                self.reference_resolution.width > 0 && self.reference_resolution.height > 0,
                markers_issue_from(*self, 0) == markers_issue_from(*self, i as int),
            decreases self.confirmation_markers@.len() - i,
        {
            let c = self.check_marker(i);
            if c.is_err() {
                return c;
            }
            i += 1;
        }
        let mut k: usize = 0;
        while k < self.rois.len()
            invariant
                k <= self.rois@.len(),
                self.reference_resolution.width > 0 && self.reference_resolution.height > 0,
                markers_issue_from(*self, 0) is None,
                rois_issue_from(*self, 0) == rois_issue_from(*self, k as int),
            decreases self.rois@.len() - k,
        {
            let c = self.check_roi(k);
            if c.is_err() {
                return c;
            }
            k += 1;
        }
        Ok(())
    }
}


// ---------------------------------------------------------------------------
// validating a catalog

/// The issue of page `i` of a catalog, given that the pages before it
/// passed: a blank id, an id used before, or an issue of the page itself.
pub open spec fn page_entry_issue(pages: Seq<PageStateDefinition>, i: int) -> Option<VisionIssue> {
    let p = pages[i];
    if trim(p.page_id@).len() == 0 {
        Some(VisionIssue::InvalidConfig("page_id 不能为空"@))
    } else if exists|j: int| 0 <= j < i && #[trigger] pages[j].page_id@ == p.page_id@ {
        Some(VisionIssue::InvalidConfig("page_id 重复："@ + p.page_id@))
    } else {
        page_issue(p)
    }
}

pub open spec fn pages_issue_from(pages: Seq<PageStateDefinition>, i: int) -> Option<VisionIssue>
    decreases pages.len() - i,
{
    if i < 0 || i >= pages.len() {
        None
    } else {
        match page_entry_issue(pages, i) {
            Some(x) => Some(x),
            None => pages_issue_from(pages, i + 1),
        }
    }
}

pub open spec fn has_page_id(pages: Seq<PageStateDefinition>, id: Seq<char>) -> bool {
    exists|j: int| 0 <= j < pages.len() && #[trigger] pages[j].page_id@ == id
}

/// The supported actions of a page, then its recovery actions.
pub open spec fn actions_of(p: PageStateDefinition) -> Seq<PageActionDefinition> {
    p.supported_actions@ + p.recovery_actions@
}

pub open spec fn action_issue(pages: Seq<PageStateDefinition>, p: PageStateDefinition, a: PageActionDefinition) -> Option<VisionIssue> {
    match a.target_page_id {
        Some(t) => if has_page_id(pages, t@) {
            None
        } else {
            Some(
                VisionIssue::InvalidConfig(
                    "页面 `"@ + p.page_id@ + "` 的动作 `"@ + a.action_id@ + "` 指向不存在的目标页面 `"@ + t@
                        + "`"@,
                ),
            )
        },
        None => None,
    }
}

pub open spec fn actions_issue_from(pages: Seq<PageStateDefinition>, p: PageStateDefinition, k: int) -> Option<VisionIssue>
    decreases actions_of(p).len() - k,
{
    if k < 0 || k >= actions_of(p).len() {
        None
    } else {
        match action_issue(pages, p, actions_of(p)[k]) {
            Some(x) => Some(x),
            None => actions_issue_from(pages, p, k + 1),
        }
    }
}

pub open spec fn targets_issue_from(pages: Seq<PageStateDefinition>, i: int) -> Option<VisionIssue>
    decreases pages.len() - i,
{
    if i < 0 || i >= pages.len() {
        None
    } else {
        match actions_issue_from(pages, pages[i], 0) {
            Some(x) => Some(x),
            None => targets_issue_from(pages, i + 1),
        }
    }
}

/// The first issue of a catalog: the pages in order, then every action
/// target, which must name a page of the catalog.
pub open spec fn catalog_issue(pages: Seq<PageStateDefinition>) -> Option<VisionIssue> {
    match pages_issue_from(pages, 0) {
        Some(x) => Some(x),
        None => targets_issue_from(pages, 0),
    }
}

impl PageStateCatalog {
    fn page_duplicate(&self, i: usize) -> (res: bool)
        requires
            i < self.pages@.len(),
        ensures
            res == exists|j: int| 0 <= j < i && #[trigger] self.pages@[j].page_id@ == self.pages@[i as int].page_id@,
    {
        let mut j: usize = 0;
        while j < i
            invariant
                j <= i < self.pages@.len(),
                forall|k: int| 0 <= k < j ==> #[trigger] self.pages@[k].page_id@ != self.pages@[i as int].page_id@,
            decreases i - j,
        {
            if str_eq(self.pages[j].page_id.as_str(), self.pages[i].page_id.as_str()) {
                return true;
            }
            j += 1;
        }
        false
    }

    fn contains_page_id(&self, id: &str) -> (res: bool)
        ensures
            res == has_page_id(self.pages@, id@),
    {
        let mut j: usize = 0;
        while j < self.pages.len()
            invariant
                j <= self.pages@.len(),
                forall|k: int| 0 <= k < j ==> #[trigger] self.pages@[k].page_id@ != id@,
            decreases self.pages@.len() - j,
        {
            if str_eq(self.pages[j].page_id.as_str(), id) {
                return true;
            }
            j += 1;
        }
        false
    }

    fn check_actions(&self, p: &PageStateDefinition, actions: &Vec<PageActionDefinition>, recovery: bool, offset: usize) -> (res: Result<(), VisionConfigError>)
        requires
            !recovery ==> actions@ == p.supported_actions@ && offset == 0,
            recovery ==> actions@ == p.recovery_actions@ && offset == p.supported_actions@.len(),
        ensures
            res is Err ==> result_issue(res) == actions_issue_from(self.pages@, *p, offset as int) && result_issue(res) is Some,
            res is Ok ==> actions_issue_from(self.pages@, *p, (offset + actions@.len()) as int)
                == actions_issue_from(self.pages@, *p, offset as int),
    {
        let mut k: usize = 0;
        while k < actions.len()
            invariant
                k <= actions@.len(),
                !recovery ==> actions@ == p.supported_actions@ && offset == 0,
                recovery ==> actions@ == p.recovery_actions@ && offset == p.supported_actions@.len(),
                actions_issue_from(self.pages@, *p, offset + k) == actions_issue_from(self.pages@, *p, offset as int),
            decreases actions@.len() - k,
        {
            let a = &actions[k];
            assert(actions_of(*p)[offset + k] == *a);
            match &a.target_page_id {
                Some(t) => {
                    if !self.contains_page_id(t.as_str()) {
                        let mut message = concat4("页面 `", p.page_id.as_str(), "` 的动作 `", a.action_id.as_str());
                        message.append("` 指向不存在的目标页面 `");
                        message.append(t.as_str());
                        message.append("`");
                        return Err(VisionConfigError::InvalidConfig { message });
                    }
                },
                None => {},
            }
            k += 1;
        }
        Ok(())
    }

    /// Checks every page in order (a non-blank id used once, then the page
    /// itself), then that every action's target names a page of the catalog.
    pub fn validate(&self) -> (res: Result<(), VisionConfigError>)
        ensures
            result_issue(res) == catalog_issue(self.pages@),
            res is Ok <==> catalog_issue(self.pages@) is None,
    {
        let mut i: usize = 0;
        while i < self.pages.len()
            invariant
                i <= self.pages@.len(),
                pages_issue_from(self.pages@, 0) == pages_issue_from(self.pages@, i as int),
            decreases self.pages@.len() - i,
        {
            let page = &self.pages[i];
            if trimmed_is_empty(page.page_id.as_str()) {
                return Err(VisionConfigError::InvalidConfig { message: "page_id 不能为空".to_string() });
            }
            if self.page_duplicate(i) {
                let mut message = "page_id 重复：".to_string();
                message.append(page.page_id.as_str());
                return Err(VisionConfigError::InvalidConfig { message });
            }
            let c = page.validate();
            assert(*page == self.pages@[i as int]);
            assert(page_entry_issue(self.pages@, i as int) == page_issue(*page));
            if c.is_err() {
                assert(pages_issue_from(self.pages@, i as int) == result_issue(c));
                return c;
            }
            i += 1;
        }
        let mut i: usize = 0;
        while i < self.pages.len()
            invariant
                i <= self.pages@.len(),
                pages_issue_from(self.pages@, 0) is None,
                targets_issue_from(self.pages@, 0) == targets_issue_from(self.pages@, i as int),
            decreases self.pages@.len() - i,
        {
            let page = &self.pages[i];
            assert(*page == self.pages@[i as int]);
            let c = self.check_actions(page, &page.supported_actions, false, 0);
            if c.is_err() {
                assert(targets_issue_from(self.pages@, i as int) == result_issue(c));
                return c;
            }
            let n = page.supported_actions.len();
            let c = self.check_actions(page, &page.recovery_actions, true, n);
            if c.is_err() {
                assert(targets_issue_from(self.pages@, i as int) == result_issue(c));
                return c;
            }
            assert(actions_issue_from(self.pages@, *page, actions_of(*page).len() as int) is None);
            i += 1;
        }
        Ok(())
    }

    /// The first page with the given id.
    pub fn find_page(&self, page_id: &str) -> (res: Option<&PageStateDefinition>)
        ensures
            match res {
                Some(p) => exists|i: int|
                    0 <= i < self.pages@.len() && *p == self.pages@[i] && p.page_id@ == page_id@ && forall|j: int|
                        0 <= j < i ==> #[trigger] self.pages@[j].page_id@ != page_id@,
                None => !has_page_id(self.pages@, page_id@),
            },
    {
        let mut j: usize = 0;
        while j < self.pages.len()
            invariant
                j <= self.pages@.len(),
                forall|k: int| 0 <= k < j ==> #[trigger] self.pages@[k].page_id@ != page_id@,
            decreases self.pages@.len() - j,
        {
            if str_eq(self.pages[j].page_id.as_str(), page_id) {
                return Some(&self.pages[j]);
            }
            j += 1;
        }
        None
    }
}


// ---------------------------------------------------------------------------
// inventory page signatures

pub struct InventoryPageSignatureEntry {
    pub roi_id: String,
    pub hash64: u64,
}

pub struct InventoryPageSignature {
    pub page_id: String,
    pub entries: Vec<InventoryPageSignatureEntry>,
}

pub struct InventoryPageSignatureComparison {
    pub page_id: String,
    pub total_regions: usize,
    pub matched_regions: usize,
    pub max_hamming_distance: u32,
    pub is_same_page: bool,
}

/// The number of one bits of `x`.
pub open spec fn popcount(x: u64) -> nat
    decreases x,
{
    if x == 0 {
        0
    } else {
        (x % 2) as nat + popcount(x / 2)
    }
}

pub open spec fn bit(i: nat) -> nat
    decreases i,
{
    if i == 0 {
        1
    } else {
        2 * bit((i - 1) as nat)
    }
}

proof fn lemma_popcount_bound(x: u64, k: nat)
    requires
        x < bit(k),
    ensures
        popcount(x) <= k,
    decreases k,
{
    if x != 0 {
        assert(k > 0);
        lemma_popcount_bound(x / 2, (k - 1) as nat);
    }
}

proof fn lemma_bit_64()
    ensures
        bit(64) == 0x1_0000_0000_0000_0000,
        bit(63) == 0x8000_0000_0000_0000,
{
    reveal_with_fuel(bit, 65);
}

/// The number of one bits of `x`, as `u64::count_ones` gives it.
pub fn count_ones(x: u64) -> (res: u32)
    ensures
        res == popcount(x),
        res <= 64,
{
    proof {
        lemma_bit_64();
        lemma_popcount_bound(x, 64);
    }
    let mut v = x;
    let mut c: u32 = 0;
    while v > 0
        invariant
            c + popcount(v) == popcount(x),
            popcount(x) <= 64,
        decreases v,
    {
        c += (v % 2) as u32;
        v = v / 2;
    }
    c
}

/// The first entry of `entries` with this region id.
pub open spec fn first_entry_with_id(entries: Seq<InventoryPageSignatureEntry>, id: Seq<char>, k: int) -> bool {
    0 <= k < entries.len() && entries[k].roi_id@ == id && forall|j: int|
        0 <= j < k ==> #[trigger] entries[j].roi_id@ != id
}

pub open spec fn has_entry_with_id(entries: Seq<InventoryPageSignatureEntry>, id: Seq<char>) -> bool {
    exists|k: int| 0 <= k < entries.len() && #[trigger] entries[k].roi_id@ == id
}

/// For the first `n` entries of `left`: how many regions the right
/// signature shares, how many of those are within `max` differing bits, and
/// the largest difference seen; a region is paired with the first right
/// entry of the same id.
pub open spec fn signature_stats(
    left: Seq<InventoryPageSignatureEntry>,
    right: Seq<InventoryPageSignatureEntry>,
    max: u32,
    n: int,
) -> (nat, nat, nat)
    decreases n,
{
    if n <= 0 {
        (0, 0, 0)
    } else {
        let prev = signature_stats(left, right, max, n - 1);
        let l = left[n - 1];
        if has_entry_with_id(right, l.roi_id@) {
            let k = choose|k: int| first_entry_with_id(right, l.roi_id@, k);
            let d = popcount(l.hash64 ^ right[k].hash64);
            (
                prev.0 + 1,
                if d <= max {
                    prev.1 + 1
                } else {
                    prev.1
                },
                if d > prev.2 {
                    d
                } else {
                    prev.2
                },
            )
        } else {
            prev
        }
    }
}

pub open spec fn signature_comparison_spec(left: InventoryPageSignature, right: InventoryPageSignature, max: u32) -> (
    nat,
    nat,
    nat,
    bool,
) {
    if left.page_id@ != right.page_id@ {
        (0, 0, u32::MAX as nat, false)
    } else {
        let st = signature_stats(left.entries@, right.entries@, max, left.entries@.len() as int);
        (st.0, st.1, st.2, st.0 > 0 && st.1 == st.0)
    }
}

proof fn lemma_first_entry_unique(entries: Seq<InventoryPageSignatureEntry>, id: Seq<char>, a: int, b: int)
    requires
        first_entry_with_id(entries, id, a),
        first_entry_with_id(entries, id, b),
    ensures
        a == b,
{
    if a < b {
        assert(entries[a].roi_id@ != id);
    } else if b < a {
        assert(entries[b].roi_id@ != id);
    }
}

fn find_entry(entries: &Vec<InventoryPageSignatureEntry>, id: &String) -> (res: Option<usize>)
    ensures
        match res {
            Some(k) => first_entry_with_id(entries@, id@, k as int),
            None => !has_entry_with_id(entries@, id@),
        },
{
    let mut k: usize = 0;
    while k < entries.len()
        invariant
            k <= entries@.len(),
            forall|j: int| 0 <= j < k ==> #[trigger] entries@[j].roi_id@ != id@,
        decreases entries@.len() - k,
    {
        if str_eq(entries[k].roi_id.as_str(), id.as_str()) {
            return Some(k);
        }
        k += 1;
    }
    None
}

/// Compares two page signatures region by region: pages with different ids
/// never match; otherwise each left region is paired with the right region
/// of the same id, and the page is the same when at least one region is
/// shared and every shared region differs in at most `max_hamming_distance`
/// bits.
pub fn compare_inventory_page_signatures(
    left: &InventoryPageSignature,
    right: &InventoryPageSignature,
    max_hamming_distance: u32,
) -> (res: InventoryPageSignatureComparison)
    ensures
        res.page_id@ == left.page_id@,
        (res.total_regions as nat, res.matched_regions as nat, res.max_hamming_distance as nat, res.is_same_page)
            == signature_comparison_spec(*left, *right, max_hamming_distance),
{
    if !str_eq(left.page_id.as_str(), right.page_id.as_str()) {
        return InventoryPageSignatureComparison {
            page_id: left.page_id.clone(),
            total_regions: 0,
            matched_regions: 0,
            max_hamming_distance: u32::MAX,
            is_same_page: false,
        };
    }
    let mut total_regions: usize = 0;
    let mut matched_regions: usize = 0;
    let mut worst_distance: u32 = 0;
    let mut i: usize = 0;
    while i < left.entries.len()
        invariant
            i <= left.entries@.len(),
            total_regions <= i,
            matched_regions <= i,
            worst_distance <= 64,
            signature_stats(left.entries@, right.entries@, max_hamming_distance, i as int) == (
                total_regions as nat,
                matched_regions as nat,
                worst_distance as nat,
            ),
        decreases left.entries@.len() - i,
    {
        let l = &left.entries[i];
        match find_entry(&right.entries, &l.roi_id) {
            Some(k) => {
                proof {
                    let kk = choose|kk: int| first_entry_with_id(right.entries@, l.roi_id@, kk);
                    lemma_first_entry_unique(right.entries@, l.roi_id@, kk, k as int);
                }
                let distance = count_ones(l.hash64 ^ right.entries[k].hash64);
                total_regions += 1;
                if distance > worst_distance {
                    worst_distance = distance;
                }
                if distance <= max_hamming_distance {
                    matched_regions += 1;
                }
            },
            None => {},
        }
        i += 1;
    }
    InventoryPageSignatureComparison {
        page_id: left.page_id.clone(),
        total_regions,
        matched_regions,
        max_hamming_distance: worst_distance,
        is_same_page: total_regions > 0 && matched_regions == total_regions,
    }
}

/// The number of the first `n` left entries whose region the right
/// signature also has.
pub open spec fn shared_region_count(
    left: Seq<InventoryPageSignatureEntry>,
    right: Seq<InventoryPageSignatureEntry>,
    n: int,
) -> nat
    decreases n,
{
    if n <= 0 {
        0
    } else {
        shared_region_count(left, right, n - 1) + if has_entry_with_id(right, left[n - 1].roi_id@) {
            1nat
        } else {
            0nat
        }
    }
}

proof fn lemma_stats_bounds(
    left: Seq<InventoryPageSignatureEntry>,
    right: Seq<InventoryPageSignatureEntry>,
    max: u32,
    n: int,
)
    requires
        n <= left.len(),
    ensures
        signature_stats(left, right, max, n).0 == shared_region_count(left, right, n),
        signature_stats(left, right, max, n).1 <= signature_stats(left, right, max, n).0,
        signature_stats(left, right, max, n).2 <= 64,
        signature_stats(left, right, max, n).0 == 0 ==> signature_stats(left, right, max, n).2 == 0,
    decreases n,
{
    if n > 0 {
        lemma_stats_bounds(left, right, max, n - 1);
        let l = left[n - 1];
        if has_entry_with_id(right, l.roi_id@) {
            let k = choose|k: int| first_entry_with_id(right, l.roi_id@, k);
            lemma_first_entry_exists(right, l.roi_id@);
            lemma_bit_64();
            lemma_popcount_bound(l.hash64 ^ right[k].hash64, 64);
        }
    }
}

proof fn lemma_first_entry_exists(entries: Seq<InventoryPageSignatureEntry>, id: Seq<char>)
    requires
        has_entry_with_id(entries, id),
    ensures
        exists|k: int| first_entry_with_id(entries, id, k),
{
    let w = choose|k: int| 0 <= k < entries.len() && #[trigger] entries[k].roi_id@ == id;
    lemma_first_at_most(entries, id, w, 0);
}

proof fn lemma_first_at_most(entries: Seq<InventoryPageSignatureEntry>, id: Seq<char>, w: int, i: int)
    requires
        0 <= i <= w < entries.len(),
        entries[w].roi_id@ == id,
        forall|j: int| 0 <= j < i ==> #[trigger] entries[j].roi_id@ != id,
    ensures
        exists|k: int| first_entry_with_id(entries, id, k),
    decreases w - i,
{
    if entries[i].roi_id@ == id {
        assert(first_entry_with_id(entries, id, i));
    } else {
        lemma_first_at_most(entries, id, w, i + 1);
    }
}

/// Law: comparing two signatures of the same page counts as shared exactly
/// the left regions that the right signature also has; no more of them
/// match than are shared; the largest difference is at most 64 bits, and
/// zero when nothing is shared; and the page is the same exactly when some
/// region is shared and all shared regions match.
pub proof fn lemma_comparison_bounds(left: InventoryPageSignature, right: InventoryPageSignature, max: u32)
    requires
        left.page_id@ == right.page_id@,
    ensures
        signature_comparison_spec(left, right, max).0 == shared_region_count(
            left.entries@,
            right.entries@,
            left.entries@.len() as int,
        ),
        signature_comparison_spec(left, right, max).1 <= signature_comparison_spec(left, right, max).0,
        signature_comparison_spec(left, right, max).2 <= 64,
        signature_comparison_spec(left, right, max).0 == 0 ==> signature_comparison_spec(left, right, max).2 == 0,
        signature_comparison_spec(left, right, max).3 <==> signature_comparison_spec(left, right, max).0 > 0
            && signature_comparison_spec(left, right, max).1 == signature_comparison_spec(left, right, max).0,
{
    lemma_stats_bounds(left.entries@, right.entries@, max, left.entries@.len() as int);
}

/// How many of the markers' checks passed.
pub open spec fn passed_count(passed: Seq<bool>) -> nat
    decreases passed.len(),
{
    if passed.len() == 0 {
        0
    } else {
        passed_count(passed.drop_last()) + if passed.last() {
            1nat
        } else {
            0nat
        }
    }
}

proof fn lemma_passed_count_bound(passed: Seq<bool>)
    ensures
        passed_count(passed) <= passed.len(),
        passed_count(passed) == passed.len() <==> forall|i: int| 0 <= i < passed.len() ==> passed[i],
    decreases passed.len(),
{
    if passed.len() > 0 {
        lemma_passed_count_bound(passed.drop_last());
        if passed_count(passed) == passed.len() {
            assert forall|i: int| 0 <= i < passed.len() implies passed[i] by {
                if i < passed.len() - 1 {
                    assert(passed.drop_last()[i] == passed[i]);
                }
            }
        }
        if forall|i: int| 0 <= i < passed.len() ==> passed[i] {
            assert forall|i: int| 0 <= i < passed.drop_last().len() implies passed.drop_last()[i] by {
                assert(passed.drop_last()[i] == passed[i]);
            }
        }
    }
}

/// The tally of a page's marker checks: how many passed, and whether all
/// did (the page is confirmed exactly when every marker passed); the count
/// equals the number of markers exactly when all passed.
pub fn tally_marker_passes(passed: &[bool]) -> (res: (usize, bool))
    ensures
        res.0 == passed_count(passed@),
        res.1 == (forall|i: int| 0 <= i < passed@.len() ==> passed@[i]),
        res.0 <= passed@.len(),
        res.1 <==> res.0 == passed@.len(),
{
    let mut count: usize = 0;
    let mut all = true;
    let mut i: usize = 0;
    while i < passed.len()
        invariant
            i <= passed@.len(),
            count == passed_count(passed@.take(i as int)),
            all == (forall|k: int| 0 <= k < i ==> passed@[k]),
        decreases passed@.len() - i,
    {
        proof {
            lemma_passed_count_bound(passed@.take(i as int));
            assert(passed@.take(i + 1).drop_last() =~= passed@.take(i as int));
        }
        if passed[i] {
            count = count + 1;
        } else {
            all = false;
        }
        i = i + 1;
    }
    proof {
        assert(passed@.take(passed@.len() as int) =~= passed@);
        lemma_passed_count_bound(passed@);
    }
    (count, all)
}

pub open spec fn distinct_region_ids(entries: Seq<InventoryPageSignatureEntry>) -> bool {
    forall|a: int, b: int|
        0 <= a < b < entries.len() ==> #[trigger] entries[a].roi_id@ != #[trigger] entries[b].roi_id@
}

/// Law: a signature with at least one region, and no region id twice, is
/// the same page as itself at distance zero, whatever distance is allowed.
pub proof fn lemma_signature_matches_itself(sig: InventoryPageSignature, max: u32)
    requires
        sig.entries@.len() > 0,
        distinct_region_ids(sig.entries@),
    ensures
        signature_comparison_spec(sig, sig, max).3,
        signature_comparison_spec(sig, sig, max).2 == 0,
{
    lemma_self_stats(sig.entries@, max, sig.entries@.len() as int);
}

proof fn lemma_self_stats(entries: Seq<InventoryPageSignatureEntry>, max: u32, n: int)
    requires
        0 <= n <= entries.len(),
        distinct_region_ids(entries),
    ensures
        signature_stats(entries, entries, max, n) == (n as nat, n as nat, 0nat),
    decreases n,
{
    if n > 0 {
        lemma_self_stats(entries, max, n - 1);
        let l = entries[n - 1];
        let id = l.roi_id@;
        assert(entries[n - 1].roi_id@ == id);
        assert(has_entry_with_id(entries, id));
        assert(first_entry_with_id(entries, id, n - 1));
        let k = choose|k: int| first_entry_with_id(entries, id, k);
        lemma_first_entry_unique(entries, id, k, n - 1);
        let x = l.hash64;
        assert(x ^ x == 0u64) by (bit_vector);
    }
}


// ---------------------------------------------------------------------------
// average hash

pub open spec fn byte_sum(s: Seq<u8>) -> nat
    decreases s.len(),
{
    if s.len() == 0 {
        0
    } else {
        byte_sum(s.drop_last()) + s.last() as nat
    }
}

/// The bits of the first `n` pixels: bit `i` is set when pixel `i` is at
/// least `average`.
pub open spec fn hash_bits(luma: Seq<u8>, average: nat, n: nat) -> nat
    decreases n,
{
    if n == 0 {
        0
    } else {
        hash_bits(luma, average, (n - 1) as nat) + if luma[n - 1] as nat >= average {
            bit((n - 1) as nat)
        } else {
            0
        }
    }
}

/// The 64-bit average hash of an 8x8 grayscale image: the mean (rounded
/// down), then one bit per pixel, set when the pixel is at least the mean.
pub open spec fn average_hash(luma: Seq<u8>) -> nat {
    hash_bits(luma, byte_sum(luma) / 64, 64)
}

proof fn lemma_hash_bits_bound(luma: Seq<u8>, average: nat, n: nat)
    ensures
        hash_bits(luma, average, n) < bit(n),
    decreases n,
{
    if n > 0 {
        lemma_hash_bits_bound(luma, average, (n - 1) as nat);
    }
}

pub fn average_hash64(luma: &[u8]) -> (res: u64)
    requires
        luma@.len() == 64,
    ensures
        res == average_hash(luma@),
{
    let mut sum: u64 = 0;
    let mut i: usize = 0;
    while i < 64
        invariant
            i <= 64,
            luma@.len() == 64,
            sum == byte_sum(luma@.take(i as int)),
            sum <= 255 * i,
        decreases 64 - i,
    {
        assert(luma@.take(i + 1).drop_last() =~= luma@.take(i as int));
        sum = sum + luma[i] as u64;
        i += 1;
    }
    assert(luma@.take(64) =~= luma@);
    let average: u64 = sum / 64;
    let mut hash: u64 = 0;
    let mut b: u64 = 1;
    let mut k: usize = 0;
    proof {
        lemma_bit_64();
    }
    while k < 64
        invariant
            k <= 64,
            luma@.len() == 64,
            average == byte_sum(luma@) / 64,
            hash == hash_bits(luma@, average as nat, k as nat),
            k < 64 ==> b == bit(k as nat),
            bit(64) == 0x1_0000_0000_0000_0000,
            bit(63) == 0x8000_0000_0000_0000,
        decreases 64 - k,
    {
        proof {
            lemma_hash_bits_bound(luma@, average as nat, (k + 1) as nat);
            lemma_bit_monotone(k as nat + 1, 64);
        }
        if luma[k] as u64 >= average {
            hash = hash + b;
        }
        if k < 63 {
            proof {
                lemma_bit_monotone(k as nat + 1, 63);
            }
            b = b * 2;
        }
        k += 1;
    }
    hash
}

proof fn lemma_bit_monotone(a: nat, b: nat)
    requires
        a <= b,
    ensures
        bit(a) <= bit(b),
    decreases b,
{
    if a < b {
        lemma_bit_monotone(a, (b - 1) as nat);
    }
}

// ---------------------------------------------------------------------------
// images

/// The size of a PNG once decoded; none when `image` cannot decode it.
pub uninterp spec fn png_size(png: Seq<u8>) -> Option<(u32, u32)>;

/// The region of a PNG, cropped and encoded again as PNG; none when the
/// decoding or the encoding fails.
pub uninterp spec fn png_crop(png: Seq<u8>, x: u32, y: u32, width: u32, height: u32) -> Option<Seq<u8>>;

/// The grayscale pixels of a PNG scaled to exactly the given size with the
/// given filter (one whose kernel is plain arithmetic); none when the PNG
/// does not decode.
pub uninterp spec fn png_luma_resized(png: Seq<u8>, width: u32, height: u32, filter: ResizeFilter) -> Option<Seq<u8>>;

/// The 64 grayscale pixels of a PNG scaled to 8x8 with the triangle filter.
pub open spec fn png_luma_8x8(png: Seq<u8>) -> Option<Seq<u8>> {
    png_luma_resized(png, 8, 8, ResizeFilter::Triangle)
}

/// Decodes a PNG with `image::load_from_memory_with_format` and reads its
/// size with `GenericImageView::dimensions`. Trusted: the size is named
/// `png_size`, and the call fails exactly when the name says none.
#[verifier::external_body]
pub(crate) fn decode_png_size(png: &[u8]) -> (res: Result<(u32, u32), image::ImageError>)
    ensures
        res is Ok <==> png_size(png@) is Some,
        res matches Ok(d) ==> png_size(png@) == Some(d),
{
    let decoded = image::load_from_memory_with_format(png, image::ImageFormat::Png)?;
    Ok(image::GenericImageView::dimensions(&decoded))
}

/// Decodes a PNG (`image::load_from_memory_with_format`), cuts a region out
/// of it (`DynamicImage::crop_imm`) and encodes that region as PNG
/// (`DynamicImage::write_to`). Trusted: the bytes are named `png_crop`.
#[verifier::external_body]
fn crop_png_region(png: &[u8], x: u32, y: u32, width: u32, height: u32) -> (res: Result<Vec<u8>, image::ImageError>)
    ensures
        res is Ok <==> png_crop(png@, x, y, width, height) is Some,
        res matches Ok(b) ==> png_crop(png@, x, y, width, height) == Some(b@),
{
    let decoded = image::load_from_memory_with_format(png, image::ImageFormat::Png)?;
    let cropped = decoded.crop_imm(x, y, width, height);
    let mut encoded = std::io::Cursor::new(Vec::new());
    cropped.write_to(&mut encoded, image::ImageFormat::Png)?;
    Ok(encoded.into_inner())
}

/// The sampling filters of `image::imageops::FilterType` whose kernels are
/// plain arithmetic, so that a resize with them is a function of its input
/// alone (the others go through `sin`, `exp` or `powi`, whose results std
/// leaves to the platform).
#[derive(Clone, Copy, Debug, PartialEq, Eq, Structural)]
pub enum ResizeFilter {
    Nearest,
    Triangle,
}

/// Decodes a PNG (`image::load_from_memory_with_format`), scales it to
/// exactly the given size with the given filter
/// (`DynamicImage::resize_exact`) and takes its grayscale pixels
/// (`to_luma8`). Trusted: the pixels are named `png_luma_resized`; `image`
/// documents that `resize_exact` gives exactly the asked size, so there are
/// `width * height` of them.
#[verifier::external_body]
fn luma_resized_of_png(png: &[u8], width: u32, height: u32, filter: ResizeFilter) -> (res: Result<
    Vec<u8>,
    image::ImageError,
>)
    requires
        width > 0 && height > 0,
    ensures
        res is Ok <==> png_luma_resized(png@, width, height, filter) is Some,
        res matches Ok(v) ==> png_luma_resized(png@, width, height, filter) == Some(v@) && v@.len() == width * height,
{
    let filter = match filter {
        ResizeFilter::Nearest => image::imageops::FilterType::Nearest,
        ResizeFilter::Triangle => image::imageops::FilterType::Triangle,
    };
    let decoded = image::load_from_memory_with_format(png, image::ImageFormat::Png)?;
    Ok(decoded.resize_exact(width, height, filter).to_luma8().into_vec())
}

pub fn clone_roi(roi: &RoiDefinition) -> (res: RoiDefinition)
    ensures
        res.roi_id@ == roi.roi_id@,
        res.display_name@ == roi.display_name@,
        res.rect == roi.rect,
        res.purpose == roi.purpose,
        res.preprocess_steps@ == roi.preprocess_steps@,
        res.confidence_threshold == roi.confidence_threshold,
        res.low_confidence_policy == roi.low_confidence_policy,
{
    let mut steps: Vec<RoiPreprocessStep> = Vec::new();
    let mut i: usize = 0;
    while i < roi.preprocess_steps.len()
        invariant
            i <= roi.preprocess_steps@.len(),
            steps@ == roi.preprocess_steps@.take(i as int),
        decreases roi.preprocess_steps@.len() - i,
    {
        steps.push(roi.preprocess_steps[i]);
        i += 1;
        assert(steps@ =~= roi.preprocess_steps@.take(i as int));
    }
    assert(roi.preprocess_steps@.take(i as int) =~= roi.preprocess_steps@);
    RoiDefinition {
        roi_id: roi.roi_id.clone(),
        display_name: roi.display_name.clone(),
        rect: roi.rect,
        purpose: roi.purpose,
        preprocess_steps: steps,
        confidence_threshold: roi.confidence_threshold,
        low_confidence_policy: roi.low_confidence_policy,
    }
}

/// A region cut from a screenshot.
pub struct RoiCropResult {
    pub page_id: String,
    pub roi: RoiDefinition,
    pub source_image_width: u32,
    pub source_image_height: u32,
    pub resolved_rect: ResolvedRoiRect,
    pub png_bytes: Vec<u8>,
}

/// The crop `c` is region `roi` of `page` cut from `png`, whose decoded size
/// is `w` by `h`.
pub open spec fn is_crop_of(c: RoiCropResult, page: PageStateDefinition, roi: RoiDefinition, png: Seq<u8>, w: u32, h: u32) -> bool {
    let rect = resolved_rect(roi.rect, page.reference_resolution, w, h);
    &&& c.page_id@ == page.page_id@
    &&& c.roi.roi_id@ == roi.roi_id@ && c.roi.rect == roi.rect && c.roi.purpose == roi.purpose
    &&& c.roi.display_name@ == roi.display_name@ && c.roi.preprocess_steps@ == roi.preprocess_steps@
    &&& c.roi.confidence_threshold == roi.confidence_threshold
    &&& c.roi.low_confidence_policy == roi.low_confidence_policy
    &&& c.source_image_width == w && c.source_image_height == h
    &&& c.resolved_rect == rect
    &&& resolved_rect_valid(rect, w, h)
    &&& png_crop(png, rect.x, rect.y, rect.width, rect.height) == Some(c.png_bytes@)
}

proof fn lemma_rois_pass(page: PageStateDefinition, i: int, k: int)
    requires
        0 <= i <= k < page.rois@.len(),
        rois_issue_from(page, i) is None,
    ensures
        roi_issue(page, k) is None,
    decreases k - i,
{
    if i < k {
        lemma_rois_pass(page, i + 1, k);
    }
}

proof fn lemma_roi_fits(page: PageStateDefinition, k: int, w: u32, h: u32)
    requires
        page_issue(page) is None,
        0 <= k < page.rois@.len(),
    ensures
        fits_scaling(page.rois@[k].rect, page.reference_resolution, w, h),
{
    lemma_rois_pass(page, 0, k);
    let r = page.rois@[k];
    assert(trim(r.roi_id@).len() != 0);
    assert(rect_issue(r.rect, page.reference_resolution.width, page.reference_resolution.height, r.roi_id@) is None);
    lemma_scaled_within(r.rect.x, w, page.reference_resolution.width);
    lemma_scaled_within(r.rect.y, h, page.reference_resolution.height);
    lemma_scaled_within(r.rect.width, w, page.reference_resolution.width);
    lemma_scaled_within(r.rect.height, h, page.reference_resolution.height);
}

/// Cuts region `k` of a validated page out of a screenshot of size `w` by `h`.
fn crop_roi(page: &PageStateDefinition, k: usize, png: &[u8], w: u32, h: u32) -> (res: Result<RoiCropResult, RoiCropError>)
    requires
        page_issue(*page) is None,
        k < page.rois@.len(),
    ensures
        match res {
            Ok(c) => is_crop_of(c, *page, page.rois@[k as int], png@, w, h),
            Err(RoiCropError::InvalidResolvedRect { page_id, roi_id, image_width, image_height, rect }) => {
                let r = resolved_rect(page.rois@[k as int].rect, page.reference_resolution, w, h);
                &&& !resolved_rect_valid(r, w, h)
                &&& page_id@ == page.page_id@ && roi_id@ == page.rois@[k as int].roi_id@
                &&& image_width == w && image_height == h && rect == r
            },
            Err(RoiCropError::EncodePng { .. }) => {
                let r = resolved_rect(page.rois@[k as int].rect, page.reference_resolution, w, h);
                resolved_rect_valid(r, w, h) && png_crop(png@, r.x, r.y, r.width, r.height) is None
            },
            Err(_) => false,
        },
{
    let roi = &page.rois[k];
    proof {
        lemma_roi_fits(*page, k as int, w, h);
    }
    let rect = resolve_roi_rect(&roi.rect, &page.reference_resolution, w, h);
    assert(ReferenceResolution { width: page.reference_resolution.width, height: page.reference_resolution.height } == page.reference_resolution);
    let v = validate_resolved_rect(page.page_id.as_str(), roi.roi_id.as_str(), rect, w, h);
    if v.is_err() {
        return match v {
            Err(e) => Err(e),
            Ok(()) => Err(RoiCropError::InvalidResolvedRect {
                page_id: page.page_id.clone(),
                roi_id: roi.roi_id.clone(),
                image_width: w,
                image_height: h,
                rect,
            }),
        };
    }
    match crop_png_region(png, rect.x, rect.y, rect.width, rect.height) {
        Ok(bytes) => Ok(RoiCropResult {
            page_id: page.page_id.clone(),
            roi: clone_roi(roi),
            source_image_width: w,
            source_image_height: h,
            resolved_rect: rect,
            png_bytes: bytes,
        }),
        Err(source) => Err(RoiCropError::EncodePng { source }),
    }
}

pub open spec fn crop_config_failure<T>(res: Result<T, RoiCropError>) -> Option<VisionIssue> {
    match res {
        Err(RoiCropError::InvalidConfig(c)) => vision_issue(c),
        _ => None,
    }
}

pub open spec fn crop_decode_failure<T>(res: Result<T, RoiCropError>) -> bool {
    res matches Err(RoiCropError::DecodePng { .. })
}

/// The crops are every region of the page, in order, cut from the PNG.
pub open spec fn all_crops_of(crops: Seq<RoiCropResult>, page: PageStateDefinition, png: Seq<u8>) -> bool {
    &&& page_issue(page) is None
    &&& png_size(png) is Some
    &&& crops.len() == page.rois@.len()
    &&& forall|k: int|
        0 <= k < crops.len() ==> is_crop_of(
            #[trigger] crops[k],
            page,
            page.rois@[k],
            png,
            png_size(png)->Some_0.0,
            png_size(png)->Some_0.1,
        )
}

/// The page validates, the PNG decodes, and every region, once scaled, lies
/// inside the screenshot and can be encoded.
pub open spec fn all_regions_croppable(page: PageStateDefinition, png: Seq<u8>) -> bool {
    &&& page_issue(page) is None
    &&& png_size(png) is Some
    &&& forall|k: int|
        0 <= k < page.rois@.len() ==> region_croppable(page, #[trigger] page.rois@[k], png)
}

pub open spec fn region_croppable(page: PageStateDefinition, roi: RoiDefinition, png: Seq<u8>) -> bool {
    let d = png_size(png)->Some_0;
    let r = resolved_rect(roi.rect, page.reference_resolution, d.0, d.1);
    resolved_rect_valid(r, d.0, d.1) && png_crop(png, r.x, r.y, r.width, r.height) is Some
}

pub open spec fn config_error_view(e: RoiCropError) -> Option<VisionIssue> {
    match e {
        RoiCropError::InvalidConfig(c) => vision_issue(c),
        _ => None,
    }
}

/// Cuts every region of a page out of a screenshot, in the page's order.
/// The page must validate and the PNG decode; then each region's rectangle
/// is scaled onto the screenshot and must lie inside it.
pub fn crop_all_rois_from_png(page: &PageStateDefinition, png_bytes: &[u8]) -> (res: Result<Vec<RoiCropResult>, RoiCropError>)
    ensures
        page_issue(*page) is Some ==> crop_config_failure(res) == page_issue(*page),
        page_issue(*page) is None && png_size(png_bytes@) is None ==> crop_decode_failure(res),
        res is Ok ==> all_crops_of(res->Ok_0@, *page, png_bytes@),
        all_regions_croppable(*page, png_bytes@) ==> res is Ok,
{
    let valid = page.validate();
    match valid {
        Err(e) => {
            return Err(RoiCropError::InvalidConfig(e));
        },
        Ok(()) => {},
    }
    let (w, h) = match decode_png_size(png_bytes) {
        Ok(d) => d,
        Err(source) => {
            return Err(RoiCropError::DecodePng { source });
        },
    };
    let mut crops: Vec<RoiCropResult> = Vec::new();
    let mut k: usize = 0;
    while k < page.rois.len()
        invariant
            k <= page.rois@.len(),
            page_issue(*page) is None,
            png_size(png_bytes@) == Some((w, h)),
            crops@.len() == k,
            forall|j: int| 0 <= j < k ==> is_crop_of(#[trigger] crops@[j], *page, page.rois@[j], png_bytes@, w, h),
        decreases page.rois@.len() - k,
    {
        let c = crop_roi(page, k, png_bytes, w, h);
        match c {
            Ok(c) => {
                crops.push(c);
            },
            Err(e) => {
                return Err(e);
            },
        }
        k += 1;
    }
    Ok(crops)
}


/// The first region of the page with this id.
pub open spec fn first_roi_with_id(page: PageStateDefinition, roi_id: Seq<char>, k: int) -> bool {
    0 <= k < page.rois@.len() && page.rois@[k].roi_id@ == roi_id && forall|j: int|
        0 <= j < k ==> #[trigger] page.rois@[j].roi_id@ != roi_id
}

pub open spec fn has_roi(page: PageStateDefinition, roi_id: Seq<char>) -> bool {
    exists|k: int| 0 <= k < page.rois@.len() && #[trigger] page.rois@[k].roi_id@ == roi_id
}

pub open spec fn roi_not_found_error(res: Result<RoiCropResult, RoiCropError>, page: PageStateDefinition, roi_id: Seq<char>) -> bool {
    match res {
        Err(RoiCropError::RoiNotFound { page_id, roi_id: r }) => page_id@ == page.page_id@ && r@ == roi_id,
        _ => false,
    }
}

/// `c` is the crop of the first region of the page with this id.
pub open spec fn is_single_crop_of(c: RoiCropResult, page: PageStateDefinition, roi_id: Seq<char>, png: Seq<u8>) -> bool {
    &&& png_size(png) is Some
    &&& exists|k: int|
        #[trigger] first_roi_with_id(page, roi_id, k) && is_crop_of(
            c,
            page,
            page.rois@[k],
            png,
            png_size(png)->Some_0.0,
            png_size(png)->Some_0.1,
        )
}

/// Every region that is the first with this id can be cut from the PNG.
pub open spec fn first_roi_croppable(page: PageStateDefinition, roi_id: Seq<char>, png: Seq<u8>) -> bool {
    forall|k: int| #[trigger] first_roi_with_id(page, roi_id, k) ==> region_croppable(page, page.rois@[k], png)
}

/// Cuts one region, found by id, out of a screenshot: the page must
/// validate, have the region, the PNG decode, and the scaled rectangle lie
/// inside the screenshot.
pub fn crop_single_roi_from_png(page: &PageStateDefinition, roi_id: &str, png_bytes: &[u8]) -> (res: Result<RoiCropResult, RoiCropError>)
    ensures
        page_issue(*page) is Some ==> crop_config_failure(res) == page_issue(*page),
        page_issue(*page) is None && !has_roi(*page, roi_id@) ==> roi_not_found_error(res, *page, roi_id@),
        page_issue(*page) is None && has_roi(*page, roi_id@) && png_size(png_bytes@) is None ==> crop_decode_failure(res),
        res is Ok ==> is_single_crop_of(res->Ok_0, *page, roi_id@, png_bytes@),
        page_issue(*page) is None && has_roi(*page, roi_id@) && png_size(png_bytes@) is Some
            && first_roi_croppable(*page, roi_id@, png_bytes@) ==> res is Ok,
{
    let valid = page.validate();
    match valid {
        Err(e) => {
            return Err(RoiCropError::InvalidConfig(e));
        },
        Ok(()) => {},
    }
    let mut k: usize = 0;
    while k < page.rois.len()
        invariant
            k <= page.rois@.len(),
            forall|j: int| 0 <= j < k ==> #[trigger] page.rois@[j].roi_id@ != roi_id@,
        ensures
            k <= page.rois@.len(),
            forall|j: int| 0 <= j < k ==> #[trigger] page.rois@[j].roi_id@ != roi_id@,
            k < page.rois@.len() ==> page.rois@[k as int].roi_id@ == roi_id@,
        decreases page.rois@.len() - k,
    {
        if str_eq(page.rois[k].roi_id.as_str(), roi_id) {
            break;
        }
        k += 1;
    }
    if k == page.rois.len() {
        return Err(RoiCropError::RoiNotFound { page_id: page.page_id.clone(), roi_id: roi_id.to_string() });
    }
    assert(first_roi_with_id(*page, roi_id@, k as int));
    let (w, h) = match decode_png_size(png_bytes) {
        Ok(d) => d,
        Err(source) => {
            return Err(RoiCropError::DecodePng { source });
        },
    };
    crop_roi(page, k, png_bytes, w, h)
}

// ---------------------------------------------------------------------------
// building a signature

/// A region takes part in a page signature when its id starts with
/// `signature_` and its purpose is `Generic`.
pub open spec fn is_signature_roi(roi: RoiDefinition) -> bool {
    is_prefix("signature_"@, roi.roi_id@) && roi.purpose == RoiPurpose::Generic
}

fn is_inventory_signature_roi(roi: &RoiDefinition) -> (res: bool)
    ensures
        res == is_signature_roi(*roi),
{
    let id = chars_of(roi.roi_id.as_str());
    let prefix = chars_of("signature_");
    starts_with(id.as_slice(), prefix.as_slice()) && roi.purpose == RoiPurpose::Generic
}

#[derive(Debug)]
pub enum InventoryPageSignatureError {
    Crop { source: RoiCropError },
    MissingSignatureRegions { page_id: String },
    DecodePng { source: image::ImageError },
}

/// The average hash of a region's PNG.
fn compute_average_hash64(png_bytes: &[u8]) -> (res: Result<u64, InventoryPageSignatureError>)
    ensures
        res is Ok <==> png_luma_8x8(png_bytes@) is Some,
        res matches Ok(h) ==> h == average_hash(png_luma_8x8(png_bytes@)->Some_0),
        res is Err ==> res matches Err(InventoryPageSignatureError::DecodePng { .. }),
{
    match luma_resized_of_png(png_bytes, 8, 8, ResizeFilter::Triangle) {
        Ok(luma) => Ok(average_hash64(luma.as_slice())),
        Err(source) => Err(InventoryPageSignatureError::DecodePng { source }),
    }
}

pub open spec fn entry_key(e: InventoryPageSignatureEntry) -> (Seq<char>, int) {
    (e.roi_id@, e.hash64 as int)
}

pub open spec fn entry_keys(s: Seq<InventoryPageSignatureEntry>) -> Seq<(Seq<char>, int)> {
    s.map_values(|e: InventoryPageSignatureEntry| entry_key(e))
}

/// No entry's region id comes after the id of an entry later in the list.
pub open spec fn sorted_by_region_id(s: Seq<InventoryPageSignatureEntry>) -> bool {
    forall|a: int, b: int| 0 <= a < b < s.len() ==> !seq_lt(#[trigger] s[b].roi_id@, #[trigger] s[a].roi_id@)
}

/// Sorts entries by region id.
fn sort_entries_by_region_id(entries: Vec<InventoryPageSignatureEntry>) -> (res: Vec<InventoryPageSignatureEntry>)
    ensures
        sorted_by_region_id(res@),
        entry_keys(res@).to_multiset() == entry_keys(entries@).to_multiset(),
{
    let mut out: Vec<InventoryPageSignatureEntry> = Vec::new();
    let mut input = entries;
    let ghost original = entry_keys(input@);
    broadcast use vstd::seq_lib::group_to_multiset_ensures;

    // Take the entries from the back, and insert each in front of the first
    // entry with a greater id.
    while input.len() > 0
        invariant
            sorted_by_region_id(out@),
            entry_keys(out@).to_multiset().add(entry_keys(input@).to_multiset()) == original.to_multiset(),
        decreases input@.len(),
    {
        let ghost before_input = input@;
        let x = input.pop().unwrap();
        proof {
            assert(before_input =~= input@.push(x));
            assert(entry_keys(before_input) =~= entry_keys(input@).push(entry_key(x)));
        }
        let mut p: usize = 0;
        while p < out.len() && !str_lt(x.roi_id.as_str(), out[p].roi_id.as_str())
            invariant
                p <= out@.len(),
                forall|j: int| 0 <= j < p ==> !seq_lt(x.roi_id@, #[trigger] out@[j].roi_id@),
            decreases out@.len() - p,
        {
            p += 1;
        }
        let ghost before_out = out@;
        out.insert(p, x);
        proof {
            assert(out@ =~= before_out.insert(p as int, x));
            assert(entry_keys(out@) =~= entry_keys(before_out).insert(p as int, entry_key(x)));
            vstd::seq_lib::to_multiset_insert(entry_keys(before_out), p as int, entry_key(x));
            vstd::seq_lib::to_multiset_build(entry_keys(input@), entry_key(x));
            broadcast use vstd::multiset::group_multiset_axioms;
            assert(entry_keys(out@).to_multiset().add(entry_keys(input@).to_multiset()) =~= entry_keys(
                before_out,
            ).to_multiset().add(entry_keys(before_input).to_multiset()));
            assert forall|a: int, b: int| 0 <= a < b < out@.len() implies !seq_lt(
                #[trigger] out@[b].roi_id@,
                #[trigger] out@[a].roi_id@,
            ) by {
                if b < p {
                    assert(out@[a] == before_out[a] && out@[b] == before_out[b]);
                } else if b == p {
                    assert(out@[a] == before_out[a]);
                    lemma_seq_lt_total(x.roi_id@, before_out[a].roi_id@);
                } else if a == p {
                    assert(out@[b] == before_out[b - 1]);
                    if seq_lt(before_out[b - 1].roi_id@, x.roi_id@) {
                        // p < out.len() before, and x comes before out[p]
                        lemma_seq_lt_transitive(before_out[b - 1].roi_id@, x.roi_id@, before_out[p as int].roi_id@);
                        if b - 1 == p {
                            lemma_seq_lt_irreflexive(before_out[p as int].roi_id@);
                        }
                    }
                } else if a < p {
                    assert(out@[a] == before_out[a] && out@[b] == before_out[b - 1]);
                } else {
                    assert(out@[a] == before_out[a - 1] && out@[b] == before_out[b - 1]);
                }
            }
        }
    }
    proof {
        assert(entry_keys(input@) =~= Seq::<(Seq<char>, int)>::empty());
        assert(entry_keys(input@).to_multiset() =~= vstd::multiset::Multiset::empty());
        assert(entry_keys(out@).to_multiset().add(vstd::multiset::Multiset::empty()) =~= entry_keys(out@).to_multiset());
    }
    out
}

/// The PNG of a region as cut from the screenshot.
pub open spec fn region_png(page: PageStateDefinition, roi: RoiDefinition, png: Seq<u8>) -> Seq<u8> {
    let d = png_size(png)->Some_0;
    let r = resolved_rect(roi.rect, page.reference_resolution, d.0, d.1);
    png_crop(png, r.x, r.y, r.width, r.height)->Some_0
}

/// The average hash of a region, where its PNG decodes.
pub open spec fn region_hash(page: PageStateDefinition, roi: RoiDefinition, png: Seq<u8>) -> Option<int> {
    match png_luma_8x8(region_png(page, roi, png)) {
        Some(luma) => Some(average_hash(luma) as int),
        None => None,
    }
}

/// Region id and hash of each signature region among the first `n` regions,
/// in the page's order.
pub open spec fn signature_keys(page: PageStateDefinition, png: Seq<u8>, n: int) -> Seq<(Seq<char>, int)>
    decreases n,
{
    if n <= 0 {
        Seq::empty()
    } else {
        let prev = signature_keys(page, png, n - 1);
        let r = page.rois@[n - 1];
        if is_signature_roi(r) {
            prev.push((r.roi_id@, region_hash(page, r, png)->Some_0))
        } else {
            prev
        }
    }
}

pub open spec fn has_signature_roi(page: PageStateDefinition) -> bool {
    exists|k: int| 0 <= k < page.rois@.len() && is_signature_roi(#[trigger] page.rois@[k])
}

/// Every signature region's PNG decodes.
pub open spec fn signature_regions_decode(page: PageStateDefinition, png: Seq<u8>) -> bool {
    forall|k: int|
        0 <= k < page.rois@.len() && is_signature_roi(#[trigger] page.rois@[k]) ==> region_hash(
            page,
            page.rois@[k],
            png,
        ) is Some
}

pub open spec fn signature_crop_error(res: Result<InventoryPageSignature, InventoryPageSignatureError>) -> Option<RoiCropError> {
    match res {
        Err(InventoryPageSignatureError::Crop { source }) => Some(source),
        _ => None,
    }
}

pub open spec fn missing_signature_error(res: Result<InventoryPageSignature, InventoryPageSignatureError>, page: PageStateDefinition) -> bool {
    match res {
        Err(InventoryPageSignatureError::MissingSignatureRegions { page_id }) => page_id@ == page.page_id@,
        _ => false,
    }
}

proof fn lemma_crops_croppable(crops: Seq<RoiCropResult>, page: PageStateDefinition, png: Seq<u8>)
    requires
        all_crops_of(crops, page, png),
    ensures
        all_regions_croppable(page, png),
{
    assert forall|k: int| 0 <= k < page.rois@.len() implies region_croppable(page, #[trigger] page.rois@[k], png) by {
        assert(is_crop_of(crops[k], page, page.rois@[k], png, png_size(png)->Some_0.0, png_size(png)->Some_0.1));
    }
}

/// The signature of a screenshot of a page: the average hash of each of the
/// page's signature regions, sorted by region id. Fails where the regions
/// cannot be cut, where a signature region does not decode, or where the
/// page has no signature region.
pub fn build_inventory_page_signature(page: &PageStateDefinition, png_bytes: &[u8]) -> (res: Result<InventoryPageSignature, InventoryPageSignatureError>)
    ensures
        page_issue(*page) is Some ==> (signature_crop_error(res) matches Some(e) && config_error_view(e) == page_issue(*page)),
        page_issue(*page) is None && png_size(png_bytes@) is None ==> (signature_crop_error(res) matches Some(e) && e is DecodePng),
        !all_regions_croppable(*page, png_bytes@) ==> signature_crop_error(res) is Some,
        all_regions_croppable(*page, png_bytes@) && !signature_regions_decode(*page, png_bytes@) ==> res matches Err(InventoryPageSignatureError::DecodePng { .. }),
        all_regions_croppable(*page, png_bytes@) && signature_regions_decode(*page, png_bytes@) && !has_signature_roi(*page) ==> missing_signature_error(res, *page),
        all_regions_croppable(*page, png_bytes@) && signature_regions_decode(*page, png_bytes@) && has_signature_roi(*page) ==> res is Ok,
        res matches Ok(sig) ==> {
            &&& sig.page_id@ == page.page_id@
            &&& sorted_by_region_id(sig.entries@)
            &&& entry_keys(sig.entries@).to_multiset() == signature_keys(*page, png_bytes@, page.rois@.len() as int).to_multiset()
        },
{
    let crops = match crop_all_rois_from_png(page, png_bytes) {
        Ok(c) => c,
        Err(source) => {
            return Err(InventoryPageSignatureError::Crop { source });
        },
    };
    proof {
        lemma_crops_croppable(crops@, *page, png_bytes@);
    }
    let mut entries: Vec<InventoryPageSignatureEntry> = Vec::new();
    let mut k: usize = 0;
    while k < crops.len()
        invariant
            k <= crops@.len(),
            all_crops_of(crops@, *page, png_bytes@),
            entry_keys(entries@) == signature_keys(*page, png_bytes@, k as int),
            forall|j: int| 0 <= j < k && is_signature_roi(#[trigger] page.rois@[j]) ==> region_hash(*page, page.rois@[j], png_bytes@) is Some,
            all_regions_croppable(*page, png_bytes@),
            entries@.len() > 0 ==> exists|j: int| 0 <= j < k && is_signature_roi(#[trigger] page.rois@[j]),
            entries@.len() == 0 ==> forall|j: int| 0 <= j < k ==> !is_signature_roi(#[trigger] page.rois@[j]),
        decreases crops@.len() - k,
    {
        let crop = &crops[k];
        proof {
            assert(is_crop_of(crops@[k as int], *page, page.rois@[k as int], png_bytes@, png_size(png_bytes@)->Some_0.0, png_size(png_bytes@)->Some_0.1));
            assert(crop.png_bytes@ == region_png(*page, page.rois@[k as int], png_bytes@));
        }
        if is_inventory_signature_roi(&crop.roi) {
            let h = match compute_average_hash64(crop.png_bytes.as_slice()) {
                Ok(h) => h,
                Err(e) => {
                    return Err(e);
                },
            };
            let ghost before = entries@;
            entries.push(InventoryPageSignatureEntry { roi_id: crop.roi.roi_id.clone(), hash64: h });
            proof {
                assert(entry_keys(entries@) =~= entry_keys(before).push(entry_key(entries@[before.len() as int])));
                assert(is_signature_roi(page.rois@[k as int]));
            }
        }
        k += 1;
    }
    if entries.len() == 0 {
        return Err(InventoryPageSignatureError::MissingSignatureRegions { page_id: page.page_id.clone() });
    }
    let sorted = sort_entries_by_region_id(entries);
    Ok(InventoryPageSignature { page_id: page.page_id.clone(), entries: sorted })
}

/// What is recorded of a crop beside its PNG.
pub struct RoiArtifactPayload {
    pub page_id: String,
    pub roi_id: String,
    pub display_name: String,
    pub purpose: RoiPurpose,
    pub source_image_width: u32,
    pub source_image_height: u32,
    pub resolved_rect: ResolvedRoiRect,
    pub preprocess_steps: Vec<RoiPreprocessStep>,
    /// The bits of the `f32` threshold.
    pub confidence_threshold: Option<u32>,
    pub low_confidence_policy: LowConfidencePolicy,
}

impl RoiCropResult {
    pub fn artifact_payload(&self) -> (res: RoiArtifactPayload)
        ensures
            res.page_id@ == self.page_id@,
            res.roi_id@ == self.roi.roi_id@,
            res.display_name@ == self.roi.display_name@,
            res.purpose == self.roi.purpose,
            res.source_image_width == self.source_image_width,
            res.source_image_height == self.source_image_height,
            res.resolved_rect == self.resolved_rect,
            res.preprocess_steps@ == self.roi.preprocess_steps@,
            res.confidence_threshold == self.roi.confidence_threshold,
            res.low_confidence_policy == self.roi.low_confidence_policy,
    {
        let roi = clone_roi(&self.roi);
        RoiArtifactPayload {
            page_id: self.page_id.clone(),
            roi_id: roi.roi_id,
            display_name: roi.display_name,
            purpose: roi.purpose,
            source_image_width: self.source_image_width,
            source_image_height: self.source_image_height,
            resolved_rect: self.resolved_rect,
            preprocess_steps: roi.preprocess_steps,
            confidence_threshold: roi.confidence_threshold,
            low_confidence_policy: roi.low_confidence_policy,
        }
    }
}

} // verus!
