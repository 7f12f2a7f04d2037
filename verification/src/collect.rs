//! Reading the audio graph: its dump first, and then the two port listings.
use vstd::prelude::*;

use crate::cmd::{
    dump_command, dump_command_view, listing_command, listing_command_view, CommandLine,
    CommandView,
};
use crate::error::{text_result, BackendError, ErrorView};
use crate::models::{NodeView, PortDirection};
use crate::snapshot::{
    collected, graph_result, listed_paths, ObjectView, PipeWireSnapshot, RawPwObject,
};
use crate::text::lines_of;

verus! {

/// A reading of the graph that is under way.
#[derive(Debug)]
pub enum Collector {
    /// The dump is awaited.
    Dumping,
    /// The listing of the outputs is awaited.
    ListingOutputs { objects: Vec<RawPwObject> },
    /// The listing of the inputs is awaited.
    ListingInputs { objects: Vec<RawPwObject>, output_listing: String },
}

/// A [`Collector`] with its texts as sequences of characters.
pub enum CollectorView {
    Dumping,
    ListingOutputs { objects: Seq<ObjectView> },
    ListingInputs { objects: Seq<ObjectView>, output_listing: Seq<char> },
}

impl View for Collector {
    type V = CollectorView;

    open spec fn view(&self) -> CollectorView {
        match self {
            Collector::Dumping => CollectorView::Dumping,
            Collector::ListingOutputs { objects } => CollectorView::ListingOutputs {
                objects: objects.deep_view(),
            },
            Collector::ListingInputs { objects, output_listing } => CollectorView::ListingInputs {
                objects: objects.deep_view(),
                output_listing: output_listing@,
            },
        }
    }
}

/// What a command of the reading gave: the objects of the dump, or a listing.
#[derive(Debug)]
pub enum Gathered {
    Objects(Result<Vec<RawPwObject>, BackendError>),
    Listing(Result<String, BackendError>),
}

/// [`Gathered`] with its texts as sequences of characters.
pub enum GatheredView {
    Objects(Result<Seq<ObjectView>, ErrorView>),
    Listing(Result<Seq<char>, ErrorView>),
}

impl View for Gathered {
    type V = GatheredView;

    open spec fn view(&self) -> GatheredView {
        match self {
            Gathered::Objects(Ok(objects)) => GatheredView::Objects(Ok(objects.deep_view())),
            Gathered::Objects(Err(error)) => GatheredView::Objects(Err(error@)),
            Gathered::Listing(listing) => GatheredView::Listing(text_result(*listing)),
        }
    }
}

/// Where the reading stands: a command is to be run, or it is over.
#[derive(Debug)]
pub enum Gathering {
    Run { collector: Collector, command: CommandLine },
    Finished(Result<PipeWireSnapshot, BackendError>),
}

/// [`Gathering`] with its texts as sequences of characters.
pub enum GatheringView {
    Run { collector: CollectorView, command: CommandView },
    Finished(Result<Seq<NodeView>, ErrorView>),
}

impl View for Gathering {
    type V = GatheringView;

    open spec fn view(&self) -> GatheringView {
        match self {
            Gathering::Run { collector, command } => GatheringView::Run {
                collector: collector@,
                command: command@,
            },
            Gathering::Finished(result) => GatheringView::Finished(graph_result(*result)),
        }
    }
}

/// The graph that a dump and two listings tell.
pub open spec fn told_graph(
    objects: Seq<ObjectView>,
    output_listing: Seq<char>,
    input_listing: Seq<char>,
) -> Seq<NodeView> {
    collected(objects, listed_paths(lines_of(output_listing)), listed_paths(lines_of(input_listing)))
}

impl CollectorView {
    /// Whether this is what the reading waits for.
    pub open spec fn expects(self, gathered: GatheredView) -> bool {
        self is Dumping <==> gathered is Objects
    }

    /// What follows the end of a command. The first failure ends the reading.
    pub open spec fn continued(self, gathered: GatheredView) -> GatheringView {
        match (self, gathered) {
            (_, GatheredView::Objects(Err(error))) => GatheringView::Finished(Err(error)),
            (_, GatheredView::Listing(Err(error))) => GatheringView::Finished(Err(error)),
            (_, GatheredView::Objects(Ok(objects))) => GatheringView::Run {
                collector: CollectorView::ListingOutputs { objects },
                command: listing_command_view(PortDirection::Output),
            },
            (
                CollectorView::ListingInputs { objects, output_listing },
                GatheredView::Listing(Ok(input_listing)),
            ) => GatheringView::Finished(Ok(told_graph(objects, output_listing, input_listing))),
            (
                CollectorView::ListingOutputs { objects },
                GatheredView::Listing(Ok(output_listing)),
            ) => GatheringView::Run {
                collector: CollectorView::ListingInputs { objects, output_listing },
                command: listing_command_view(PortDirection::Input),
            },
            (CollectorView::Dumping, GatheredView::Listing(Ok(_))) => GatheringView::Run {
                collector: self,
                command: dump_command_view(),
            },
        }
    }
}

impl Collector {
    /// Starts to read the graph with its dump.
    pub fn start() -> (gathering: Gathering)
        ensures
            gathering@ == (GatheringView::Run {
                collector: CollectorView::Dumping,
                command: dump_command_view(),
            }),
    {
        Gathering::Run { collector: Collector::Dumping, command: dump_command() }
    }

    /// Whether this is what the reading waits for.
    pub fn accepts(&self, gathered: &Gathered) -> (yes: bool)
        ensures
            yes == self@.expects(gathered@),
    {
        matches!(self, Collector::Dumping) == matches!(gathered, Gathered::Objects(_))
    }

    /// Takes what the last command gave and goes on.
    pub fn resume(self, gathered: Gathered) -> (gathering: Gathering)
        requires
            self@.expects(gathered@),
        ensures
            gathering@ == self@.continued(gathered@),
    {
        match gathered {
            Gathered::Objects(Err(error)) => Gathering::Finished(Err(error)),
            Gathered::Objects(Ok(objects)) => Gathering::Run {
                collector: Collector::ListingOutputs { objects },
                command: listing_command(PortDirection::Output),
            },
            Gathered::Listing(Err(error)) => Gathering::Finished(Err(error)),
            Gathered::Listing(Ok(listing)) => match self {
                Collector::ListingInputs { objects, output_listing } => Gathering::Finished(
                    Ok(
                        PipeWireSnapshot::collect(
                            objects,
                            output_listing.as_str(),
                            listing.as_str(),
                        ),
                    ),
                ),
                Collector::ListingOutputs { objects } => Gathering::Run {
                    collector: Collector::ListingInputs { objects, output_listing: listing },
                    command: listing_command(PortDirection::Input),
                },
                Collector::Dumping => Gathering::Run {
                    collector: Collector::Dumping,
                    command: dump_command(),
                },
            },
        }
    }
}

/// Where nothing fails, the reading runs the dump, the listing of the outputs
/// and the listing of the inputs, and gives the graph that they tell.
pub proof fn law_reading_the_graph(
    objects: Seq<ObjectView>,
    output_listing: Seq<char>,
    input_listing: Seq<char>,
)
    ensures
        CollectorView::Dumping.continued(GatheredView::Objects(Ok(objects))) == (
        GatheringView::Run {
            collector: CollectorView::ListingOutputs { objects },
            command: listing_command_view(PortDirection::Output),
        }),
        (CollectorView::ListingOutputs { objects }).continued(
            GatheredView::Listing(Ok(output_listing)),
        ) == (GatheringView::Run {
            collector: CollectorView::ListingInputs { objects, output_listing },
            command: listing_command_view(PortDirection::Input),
        }),
        (CollectorView::ListingInputs { objects, output_listing }).continued(
            GatheredView::Listing(Ok(input_listing)),
        ) == GatheringView::Finished(Ok(told_graph(objects, output_listing, input_listing))),
{
}

/// A failure of any command ends the reading with its error.
pub proof fn law_failed_reading(collector: CollectorView, error: ErrorView)
    ensures
        collector.continued(GatheredView::Objects(Err(error))) == GatheringView::Finished(
            Err(error),
        ),
        collector.continued(GatheredView::Listing(Err(error))) == GatheringView::Finished(
            Err(error),
        ),
{
}

/// The dump is read as objects, and what follows as listings.
pub proof fn law_what_is_awaited(
    objects: Seq<ObjectView>,
    output_listing: Seq<char>,
    dump: Result<Seq<ObjectView>, ErrorView>,
    listing: Result<Seq<char>, ErrorView>,
)
    ensures
        CollectorView::Dumping.expects(GatheredView::Objects(dump)),
        !CollectorView::Dumping.expects(GatheredView::Listing(listing)),
        (CollectorView::ListingOutputs { objects }).expects(GatheredView::Listing(listing)),
        !(CollectorView::ListingOutputs { objects }).expects(GatheredView::Objects(dump)),
        (CollectorView::ListingInputs { objects, output_listing }).expects(
            GatheredView::Listing(listing),
        ),
        !(CollectorView::ListingInputs { objects, output_listing }).expects(
            GatheredView::Objects(dump),
        ),
{
}

/// The listing of the outputs tells the paths of outputs, that of the inputs the
/// paths of inputs, each line by line.
pub proof fn law_listings_tell_paths(
    objects: Seq<ObjectView>,
    output_listing: Seq<char>,
    input_listing: Seq<char>,
)
    ensures
        told_graph(objects, output_listing, input_listing) == collected(
            objects,
            listed_paths(lines_of(output_listing)),
            listed_paths(lines_of(input_listing)),
        ),
{
}

/// The reading starts with the dump.
pub proof fn law_reading_starts(gathering: Gathering)
    requires
        call_ensures(Collector::start, (), gathering),
    ensures
        gathering@ matches GatheringView::Run { collector, command } && collector is Dumping
            && command.program == "pw-dump"@,
{
}

} // verus!
