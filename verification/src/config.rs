use crate::dimensions::{Dimensions, Link, StitchText};
use crate::fabric::{build, plan, Error, Fabric, FabricView};
use crate::fabric_svg::{chart_xml, convert};
use crate::grid::resampled;
use crate::mitre::{
    make_mitre_fabric, mitre_dimensions, mitre_view, seam_links, MAX_MITRE_STITCHES,
};
use crate::ratio::Ratio;
use crate::stitch_image::{image_view, Image};
use crate::xml::{Document, Element};
use vstd::prelude::*;

verus! {

/// The image that is read and the chart that is written.
#[derive(Clone, Debug)]
pub struct Files {
    pub input: String,
    pub output: String,
}

/// What to make: a fabric to given dimensions, or the fabric of a mitred
/// square, from one file into another.
#[derive(Clone, Debug)]
pub struct Config {
    pub dimensions: Dimensions,
    pub mitre: bool,
    pub files: Files,
}

impl Config {
    /// A chart can be made to the configuration.
    pub open spec fn wf(&self) -> bool {
        &&& self.dimensions.wf()
        &&& self.mitre ==> {
            &&& self.dimensions.stitches <= MAX_MITRE_STITCHES
            &&& self.dimensions.gauge_stitches.num <= 0x7fff_ffff
        }
    }

    /// Whether a chart can be made to the configuration.
    pub fn is_wf(&self) -> (ok: bool)
        ensures
            ok == self.wf(),
    {
        self.dimensions.is_wf() && (!self.mitre || (self.dimensions.stitches <= MAX_MITRE_STITCHES
            && self.dimensions.gauge_stitches.num <= 0x7fff_ffff))
    }

    /// The configuration that a set of options asks for. Garter stitch
    /// has two rows of the fabric for each row of the image. The chart
    /// lists the threads and not the colours.
    pub fn new(
        files: Files,
        stitches: u16,
        gauge_stitches: Ratio,
        gauge_rows: Ratio,
        cm_per_stitch: Option<Ratio>,
        garter: bool,
        mitre: bool,
        stitch_text: StitchText,
        allow_link_gaps: bool,
        links: Vec<Link>,
    ) -> (config: Config)
        ensures
            config.files == files,
            config.mitre == mitre,
            config.dimensions.stitches == stitches,
            config.dimensions.gauge_stitches == gauge_stitches,
            config.dimensions.gauge_rows == gauge_rows,
            config.dimensions.cm_per_stitch == cm_per_stitch,
            config.dimensions.duplicate_rows == if garter {
                2int
            } else {
                1int
            },
            config.dimensions.allow_link_gaps == allow_link_gaps,
            config.dimensions.links == links,
            config.dimensions.stitch_text == stitch_text,
            config.dimensions.show_thread_counts,
            !config.dimensions.show_color_counts,
    {
        Config {
            dimensions: Dimensions {
                stitches,
                gauge_stitches,
                gauge_rows,
                cm_per_stitch,
                duplicate_rows: if garter {
                    2
                } else {
                    1
                },
                allow_link_gaps,
                links,
                stitch_text,
                show_thread_counts: true,
                show_color_counts: false,
            },
            mitre,
            files,
        }
    }
}

/// The fabric that a configuration asks for, or the reason why there is
/// none.
pub open spec fn configured_fabric<I: Image>(image: &I, config: Config) -> Result<
    FabricView,
    Error,
> {
    if config.mitre {
        let m = mitre_view(image_view(image), config.dimensions.stitches as int);
        plan(
            resampled(m, mitre_dimensions(config.dimensions)),
            config.dimensions.links@ + seam_links(m, config.dimensions.stitches - 1),
            true,
        )
    } else {
        build(image_view(image), config.dimensions)
    }
}

/// The dimensions of the chart that a configuration asks for, but for
/// their links.
pub open spec fn configured_dimensions(config: Config) -> Dimensions {
    if config.mitre {
        mitre_dimensions(config.dimensions)
    } else {
        config.dimensions
    }
}

/// The chart does not show the links.
pub proof fn lemma_chart_without_links(f: FabricView, a: Dimensions, b: Dimensions)
    requires
        a.gauge_stitches == b.gauge_stitches,
        a.gauge_rows == b.gauge_rows,
        a.cm_per_stitch == b.cm_per_stitch,
        a.stitch_text == b.stitch_text,
        a.show_thread_counts == b.show_thread_counts,
        a.show_color_counts == b.show_color_counts,
    ensures
        chart_xml(f, a) == chart_xml(f, b),
{
    let h = crate::svg_text::box_height(a);
    assert(crate::fabric_svg::thread_count_part(f, h, a) =~= crate::fabric_svg::thread_count_part(
        f,
        h,
        b,
    ));
    let tally = crate::runs::color_tally(f.threads);
    assert(crate::fabric_svg::color_count_part(tally, h, a) =~= crate::fabric_svg::color_count_part(
        tally,
        h,
        b,
    ));
}

/// The chart that a configuration asks for, of the image, as a document
/// of the kind of `document`.
pub fn build_svg<I: Image, D: Document>(image: &I, document: &D, config: &Config) -> (result:
    Result<D::Element, Error>)
    requires
        config.wf(),
    ensures
        match result {
            Ok(svg) => configured_fabric(image, *config) matches Ok(fabric) && svg@ == chart_xml(
                fabric,
                configured_dimensions(*config),
            ),
            Err(e) => configured_fabric(image, *config) == Err::<FabricView, Error>(e),
        },
{
    if config.mitre {
        match make_mitre_fabric(image, &config.dimensions) {
            Ok((fabric, dimensions)) => {
                proof {
                    lemma_chart_without_links(
                        fabric@,
                        dimensions,
                        mitre_dimensions(config.dimensions),
                    );
                }
                Ok(convert(document, &dimensions, &fabric))
            },
            Err(e) => Err(e),
        }
    } else {
        match Fabric::new(image, &config.dimensions) {
            Ok(fabric) => Ok(convert(document, &config.dimensions, &fabric)),
            Err(e) => Err(e),
        }
    }
}

} // verus!
