use vstd::prelude::*;

verus! {

/// Every file a GTFS feed may hold.
#[derive(Debug, Clone, Copy, PartialEq, Eq, Structural)]
pub enum GtfsFiles {
    Agency,
    Stops,
    Routes,
    Trips,
    StopTimes,
    Calendar,
    CalendarDates,
    FareAtrributes,
    FareRules,
    TimeFrames,
    RiderCategories,
    FareMedia,
    FareProducts,
    FareLegRules,
    FareLegJoinRules,
    FareTransferRules,
    Areas,
    StopAreas,
    Networks,
    RouteNetworks,
    Shapes,
    Frequencies,
    Transfers,
    Pathways,
    Levels,
    LocationGroups,
    LocationGroupStops,
    Locations,
    BookingRules,
    Translations,
    FeedInfo,
    Attributions,
}

impl GtfsFiles {
    /// The file's name in a feed.
    pub open spec fn spec_file_name(self) -> Seq<char> {
        match self {
            GtfsFiles::Agency => "agency.txt"@,
            GtfsFiles::Stops => "stops.txt"@,
            GtfsFiles::Routes => "routes.txt"@,
            GtfsFiles::Trips => "trips.txt"@,
            GtfsFiles::StopTimes => "stop_times.txt"@,
            GtfsFiles::Calendar => "calendar.txt"@,
            GtfsFiles::CalendarDates => "calendar_dates.txt"@,
            GtfsFiles::FareAtrributes => "fare_attributes.txt"@,
            GtfsFiles::FareRules => "fare_rules.txt"@,
            GtfsFiles::TimeFrames => "timeframes.txt"@,
            GtfsFiles::RiderCategories => "rider_categories.txt"@,
            GtfsFiles::FareMedia => "fare_media.txt"@,
            GtfsFiles::FareProducts => "fare_products.txt"@,
            GtfsFiles::FareLegRules => "fare_leg_rules.txt"@,
            GtfsFiles::FareLegJoinRules => "fare_leg_join_rules.txt"@,
            GtfsFiles::FareTransferRules => "fare_transfer_rules.txt"@,
            GtfsFiles::Areas => "areas.txt"@,
            GtfsFiles::StopAreas => "stop_areas.txt"@,
            GtfsFiles::Networks => "networks.txt"@,
            GtfsFiles::RouteNetworks => "route_networks.txt"@,
            GtfsFiles::Shapes => "shapes.txt"@,
            GtfsFiles::Frequencies => "frequencies.txt"@,
            GtfsFiles::Transfers => "transfers.txt"@,
            GtfsFiles::Pathways => "pathways.txt"@,
            GtfsFiles::Levels => "levels.txt"@,
            GtfsFiles::LocationGroups => "location_groups.txt"@,
            GtfsFiles::LocationGroupStops => "location_group_stops.txt"@,
            GtfsFiles::Locations => "locations.geojson"@,
            GtfsFiles::BookingRules => "booking_rules.txt"@,
            GtfsFiles::Translations => "translations.txt"@,
            GtfsFiles::FeedInfo => "feed_info.txt"@,
            GtfsFiles::Attributions => "attributions.txt"@,
        }
    }

    /// The file's name in a feed.
    pub fn file_name(&self) -> (res: &'static str)
        ensures
            res@ == self.spec_file_name(),
    {
        match self {
            GtfsFiles::Agency => "agency.txt",
            GtfsFiles::Stops => "stops.txt",
            GtfsFiles::Routes => "routes.txt",
            GtfsFiles::Trips => "trips.txt",
            GtfsFiles::StopTimes => "stop_times.txt",
            GtfsFiles::Calendar => "calendar.txt",
            GtfsFiles::CalendarDates => "calendar_dates.txt",
            GtfsFiles::FareAtrributes => "fare_attributes.txt",
            GtfsFiles::FareRules => "fare_rules.txt",
            GtfsFiles::TimeFrames => "timeframes.txt",
            GtfsFiles::RiderCategories => "rider_categories.txt",
            GtfsFiles::FareMedia => "fare_media.txt",
            GtfsFiles::FareProducts => "fare_products.txt",
            GtfsFiles::FareLegRules => "fare_leg_rules.txt",
            GtfsFiles::FareLegJoinRules => "fare_leg_join_rules.txt",
            GtfsFiles::FareTransferRules => "fare_transfer_rules.txt",
            GtfsFiles::Areas => "areas.txt",
            GtfsFiles::StopAreas => "stop_areas.txt",
            GtfsFiles::Networks => "networks.txt",
            GtfsFiles::RouteNetworks => "route_networks.txt",
            GtfsFiles::Shapes => "shapes.txt",
            GtfsFiles::Frequencies => "frequencies.txt",
            GtfsFiles::Transfers => "transfers.txt",
            GtfsFiles::Pathways => "pathways.txt",
            GtfsFiles::Levels => "levels.txt",
            GtfsFiles::LocationGroups => "location_groups.txt",
            GtfsFiles::LocationGroupStops => "location_group_stops.txt",
            GtfsFiles::Locations => "locations.geojson",
            GtfsFiles::BookingRules => "booking_rules.txt",
            GtfsFiles::Translations => "translations.txt",
            GtfsFiles::FeedInfo => "feed_info.txt",
            GtfsFiles::Attributions => "attributions.txt",
        }
    }
}

/// Whether the GTFS reference asks a column to be present.
#[derive(Debug, Clone, Copy, PartialEq, Eq, Structural)]
pub enum ColumnPresence {
    Required,
    ConditionallyRequired,
    ConditionallyForbidden,
    Optional,
}

/// The columns of one GTFS file, each with its name and its presence.
pub trait GtfsColumnSet: Sized + Copy {
    spec fn presence_of(self) -> ColumnPresence;

    /// Every column of the file, in the order the reference lists them.
    spec fn every_column() -> Seq<Self>;

    fn presence(&self) -> (res: ColumnPresence)
        ensures
            res == self.presence_of(),
    ;

    fn all_columns() -> (res: Vec<Self>)
        ensures
            res@ == Self::every_column(),
    ;
}

/// The columns of `all` whose presence is `wanted`, in order.
pub fn columns_with<T: GtfsColumnSet>(all: Vec<T>, wanted: ColumnPresence) -> (res: Vec<T>)
    ensures
        res@ == all@.filter(|c: T| c.presence_of() == wanted),
{
    let mut out: Vec<T> = Vec::new();
    let mut i: usize = 0;
    while i < all.len()
        invariant
            i <= all@.len(),
            out@ == all@.take(i as int).filter(|c: T| c.presence_of() == wanted),
        decreases all@.len() - i,
    {
        let c = all[i];
        proof {
            assert(all@.take(i + 1).drop_last() =~= all@.take(i as int));
            assert(all@.take(i + 1).last() == c);
            reveal(Seq::filter);
        }
        if c.presence() == wanted {
            out.push(c);
        }
        i = i + 1;
    }
    proof {
        assert(all@.take(i as int) =~= all@);
    }
    out
}

/// The columns of `agency.txt`.
#[derive(Debug, Clone, Copy, PartialEq, Eq, Structural)]
pub enum AgencyColumns {
    ID,
    Name,
    URL,
    Timezone,
    Lang,
    Phone,
    FareUrl,
    Email,
    CEMVSupport,
}

impl AgencyColumns {
    /// The column's name in the file.
    pub open spec fn column_name(self) -> Seq<char> {
        match self {
            AgencyColumns::ID => "agency_id"@,
            AgencyColumns::Name => "agency_name"@,
            AgencyColumns::URL => "agency_url"@,
            AgencyColumns::Timezone => "agency_timezone"@,
            AgencyColumns::Lang => "agency_lang"@,
            AgencyColumns::Phone => "agency_phone"@,
            AgencyColumns::FareUrl => "agency_fare_url"@,
            AgencyColumns::Email => "agency_email"@,
            AgencyColumns::CEMVSupport => "cemv_support"@,
        }
    }

    /// The column's name in the file.
    pub fn name(&self) -> (res: &'static str)
        ensures
            res@ == self.column_name(),
    {
        match self {
            AgencyColumns::ID => "agency_id",
            AgencyColumns::Name => "agency_name",
            AgencyColumns::URL => "agency_url",
            AgencyColumns::Timezone => "agency_timezone",
            AgencyColumns::Lang => "agency_lang",
            AgencyColumns::Phone => "agency_phone",
            AgencyColumns::FareUrl => "agency_fare_url",
            AgencyColumns::Email => "agency_email",
            AgencyColumns::CEMVSupport => "cemv_support",
        }
    }

    pub fn get_required() -> (res: Vec<Self>)
        ensures
            res@ == Self::every_column().filter(|c: Self| c.presence_of() == ColumnPresence::Required),
    {
        columns_with(Self::all_columns(), ColumnPresence::Required)
    }

    pub fn get_conditionally_required() -> (res: Vec<Self>)
        ensures
            res@ == Self::every_column().filter(|c: Self| c.presence_of() == ColumnPresence::ConditionallyRequired),
    {
        columns_with(Self::all_columns(), ColumnPresence::ConditionallyRequired)
    }

    pub fn get_conditionally_forbidden() -> (res: Vec<Self>)
        ensures
            res@ == Self::every_column().filter(|c: Self| c.presence_of() == ColumnPresence::ConditionallyForbidden),
    {
        columns_with(Self::all_columns(), ColumnPresence::ConditionallyForbidden)
    }

    pub fn get_optional() -> (res: Vec<Self>)
        ensures
            res@ == Self::every_column().filter(|c: Self| c.presence_of() == ColumnPresence::Optional),
    {
        columns_with(Self::all_columns(), ColumnPresence::Optional)
    }

}

impl GtfsColumnSet for AgencyColumns {
    open spec fn presence_of(self) -> ColumnPresence {
        match self {
            AgencyColumns::ID => ColumnPresence::ConditionallyRequired,
            AgencyColumns::Name => ColumnPresence::Required,
            AgencyColumns::URL => ColumnPresence::Required,
            AgencyColumns::Timezone => ColumnPresence::Required,
            AgencyColumns::Lang => ColumnPresence::Optional,
            AgencyColumns::Phone => ColumnPresence::Optional,
            AgencyColumns::FareUrl => ColumnPresence::Optional,
            AgencyColumns::Email => ColumnPresence::Optional,
            AgencyColumns::CEMVSupport => ColumnPresence::Optional,
        }
    }

    open spec fn every_column() -> Seq<Self> {
        seq![
            AgencyColumns::ID,
            AgencyColumns::Name,
            AgencyColumns::URL,
            AgencyColumns::Timezone,
            AgencyColumns::Lang,
            AgencyColumns::Phone,
            AgencyColumns::FareUrl,
            AgencyColumns::Email,
            AgencyColumns::CEMVSupport,
        ]
    }

    fn presence(&self) -> (res: ColumnPresence) {
        match self {
            AgencyColumns::ID => ColumnPresence::ConditionallyRequired,
            AgencyColumns::Name => ColumnPresence::Required,
            AgencyColumns::URL => ColumnPresence::Required,
            AgencyColumns::Timezone => ColumnPresence::Required,
            AgencyColumns::Lang => ColumnPresence::Optional,
            AgencyColumns::Phone => ColumnPresence::Optional,
            AgencyColumns::FareUrl => ColumnPresence::Optional,
            AgencyColumns::Email => ColumnPresence::Optional,
            AgencyColumns::CEMVSupport => ColumnPresence::Optional,
        }
    }

    fn all_columns() -> (res: Vec<Self>) {
        let v = vec![
            AgencyColumns::ID,
            AgencyColumns::Name,
            AgencyColumns::URL,
            AgencyColumns::Timezone,
            AgencyColumns::Lang,
            AgencyColumns::Phone,
            AgencyColumns::FareUrl,
            AgencyColumns::Email,
            AgencyColumns::CEMVSupport,
        ];
        proof {
            assert(v@ =~= Self::every_column());
        }
        v
    }
}

/// The columns of `stops.txt`.
#[derive(Debug, Clone, Copy, PartialEq, Eq, Structural)]
pub enum StopColumns {
    StopID,
    Code,
    Name,
    TTSName,
    Description,
    Latitude,
    Longitude,
    ZoneID,
    URL,
    LocationType,
    ParentStation,
    Timezone,
    WheelchairBoarding,
    LevelID,
    PlatformCode,
    Access,
}

impl StopColumns {
    /// The column's name in the file.
    pub open spec fn column_name(self) -> Seq<char> {
        match self {
            StopColumns::StopID => "stop_id"@,
            StopColumns::Code => "stop_code"@,
            StopColumns::Name => "stop_name"@,
            StopColumns::TTSName => "tts_stop_name"@,
            StopColumns::Description => "stop_desc"@,
            StopColumns::Latitude => "stop_lat"@,
            StopColumns::Longitude => "stop_lon"@,
            StopColumns::ZoneID => "zone_id"@,
            StopColumns::URL => "stop_url"@,
            StopColumns::LocationType => "location_type"@,
            StopColumns::ParentStation => "parent_station"@,
            StopColumns::Timezone => "stop_timezone"@,
            StopColumns::WheelchairBoarding => "wheelchair_boarding"@,
            StopColumns::LevelID => "level_id"@,
            StopColumns::PlatformCode => "platform_code"@,
            StopColumns::Access => "stop_access"@,
        }
    }

    /// The column's name in the file.
    pub fn name(&self) -> (res: &'static str)
        ensures
            res@ == self.column_name(),
    {
        match self {
            StopColumns::StopID => "stop_id",
            StopColumns::Code => "stop_code",
            StopColumns::Name => "stop_name",
            StopColumns::TTSName => "tts_stop_name",
            StopColumns::Description => "stop_desc",
            StopColumns::Latitude => "stop_lat",
            StopColumns::Longitude => "stop_lon",
            StopColumns::ZoneID => "zone_id",
            StopColumns::URL => "stop_url",
            StopColumns::LocationType => "location_type",
            StopColumns::ParentStation => "parent_station",
            StopColumns::Timezone => "stop_timezone",
            StopColumns::WheelchairBoarding => "wheelchair_boarding",
            StopColumns::LevelID => "level_id",
            StopColumns::PlatformCode => "platform_code",
            StopColumns::Access => "stop_access",
        }
    }

    pub fn get_required() -> (res: Vec<Self>)
        ensures
            res@ == Self::every_column().filter(|c: Self| c.presence_of() == ColumnPresence::Required),
    {
        columns_with(Self::all_columns(), ColumnPresence::Required)
    }

    pub fn get_conditionally_required() -> (res: Vec<Self>)
        ensures
            res@ == Self::every_column().filter(|c: Self| c.presence_of() == ColumnPresence::ConditionallyRequired),
    {
        columns_with(Self::all_columns(), ColumnPresence::ConditionallyRequired)
    }

    pub fn get_conditionally_forbidden() -> (res: Vec<Self>)
        ensures
            res@ == Self::every_column().filter(|c: Self| c.presence_of() == ColumnPresence::ConditionallyForbidden),
    {
        columns_with(Self::all_columns(), ColumnPresence::ConditionallyForbidden)
    }

    pub fn get_optional() -> (res: Vec<Self>)
        ensures
            res@ == Self::every_column().filter(|c: Self| c.presence_of() == ColumnPresence::Optional),
    {
        columns_with(Self::all_columns(), ColumnPresence::Optional)
    }

}

impl GtfsColumnSet for StopColumns {
    open spec fn presence_of(self) -> ColumnPresence {
        match self {
            StopColumns::StopID => ColumnPresence::Required,
            StopColumns::Code => ColumnPresence::Optional,
            StopColumns::Name => ColumnPresence::ConditionallyRequired,
            StopColumns::TTSName => ColumnPresence::Optional,
            StopColumns::Description => ColumnPresence::Optional,
            StopColumns::Latitude => ColumnPresence::ConditionallyRequired,
            StopColumns::Longitude => ColumnPresence::ConditionallyRequired,
            StopColumns::ZoneID => ColumnPresence::Optional,
            StopColumns::URL => ColumnPresence::Optional,
            StopColumns::LocationType => ColumnPresence::Optional,
            StopColumns::ParentStation => ColumnPresence::ConditionallyRequired,
            StopColumns::Timezone => ColumnPresence::Optional,
            StopColumns::WheelchairBoarding => ColumnPresence::Optional,
            StopColumns::LevelID => ColumnPresence::Optional,
            StopColumns::PlatformCode => ColumnPresence::Optional,
            StopColumns::Access => ColumnPresence::ConditionallyForbidden,
        }
    }

    open spec fn every_column() -> Seq<Self> {
        seq![
            StopColumns::StopID,
            StopColumns::Code,
            StopColumns::Name,
            StopColumns::TTSName,
            StopColumns::Description,
            StopColumns::Latitude,
            StopColumns::Longitude,
            StopColumns::ZoneID,
            StopColumns::URL,
            StopColumns::LocationType,
            StopColumns::ParentStation,
            StopColumns::Timezone,
            StopColumns::WheelchairBoarding,
            StopColumns::LevelID,
            StopColumns::PlatformCode,
            StopColumns::Access,
        ]
    }

    fn presence(&self) -> (res: ColumnPresence) {
        match self {
            StopColumns::StopID => ColumnPresence::Required,
            StopColumns::Code => ColumnPresence::Optional,
            StopColumns::Name => ColumnPresence::ConditionallyRequired,
            StopColumns::TTSName => ColumnPresence::Optional,
            StopColumns::Description => ColumnPresence::Optional,
            StopColumns::Latitude => ColumnPresence::ConditionallyRequired,
            StopColumns::Longitude => ColumnPresence::ConditionallyRequired,
            StopColumns::ZoneID => ColumnPresence::Optional,
            StopColumns::URL => ColumnPresence::Optional,
            StopColumns::LocationType => ColumnPresence::Optional,
            StopColumns::ParentStation => ColumnPresence::ConditionallyRequired,
            StopColumns::Timezone => ColumnPresence::Optional,
            StopColumns::WheelchairBoarding => ColumnPresence::Optional,
            StopColumns::LevelID => ColumnPresence::Optional,
            StopColumns::PlatformCode => ColumnPresence::Optional,
            StopColumns::Access => ColumnPresence::ConditionallyForbidden,
        }
    }

    fn all_columns() -> (res: Vec<Self>) {
        let v = vec![
            StopColumns::StopID,
            StopColumns::Code,
            StopColumns::Name,
            StopColumns::TTSName,
            StopColumns::Description,
            StopColumns::Latitude,
            StopColumns::Longitude,
            StopColumns::ZoneID,
            StopColumns::URL,
            StopColumns::LocationType,
            StopColumns::ParentStation,
            StopColumns::Timezone,
            StopColumns::WheelchairBoarding,
            StopColumns::LevelID,
            StopColumns::PlatformCode,
            StopColumns::Access,
        ];
        proof {
            assert(v@ =~= Self::every_column());
        }
        v
    }
}

/// The columns of `routes.txt`.
#[derive(Debug, Clone, Copy, PartialEq, Eq, Structural)]
pub enum RouteColumns {
    RouteID,
    AgencyID,
    ShortName,
    LongName,
    Description,
    Type,
    URL,
    Color,
    TextColor,
    SortOrder,
    ContinuousPickup,
    ContinuousDropOff,
    NetworkID,
    CEMVSupport,
}

impl RouteColumns {
    /// The column's name in the file.
    pub open spec fn column_name(self) -> Seq<char> {
        match self {
            RouteColumns::RouteID => "route_id"@,
            RouteColumns::AgencyID => "agency_id"@,
            RouteColumns::ShortName => "route_short_name"@,
            RouteColumns::LongName => "route_long_name"@,
            RouteColumns::Description => "route_desc"@,
            RouteColumns::Type => "route_type"@,
            RouteColumns::URL => "route_url"@,
            RouteColumns::Color => "route_color"@,
            RouteColumns::TextColor => "route_text_color"@,
            RouteColumns::SortOrder => "route_sort_order"@,
            RouteColumns::ContinuousPickup => "continuous_pickup"@,
            RouteColumns::ContinuousDropOff => "continuous_drop_off"@,
            RouteColumns::NetworkID => "network_id"@,
            RouteColumns::CEMVSupport => "cemv_support"@,
        }
    }

    /// The column's name in the file.
    pub fn name(&self) -> (res: &'static str)
        ensures
            res@ == self.column_name(),
    {
        match self {
            RouteColumns::RouteID => "route_id",
            RouteColumns::AgencyID => "agency_id",
            RouteColumns::ShortName => "route_short_name",
            RouteColumns::LongName => "route_long_name",
            RouteColumns::Description => "route_desc",
            RouteColumns::Type => "route_type",
            RouteColumns::URL => "route_url",
            RouteColumns::Color => "route_color",
            RouteColumns::TextColor => "route_text_color",
            RouteColumns::SortOrder => "route_sort_order",
            RouteColumns::ContinuousPickup => "continuous_pickup",
            RouteColumns::ContinuousDropOff => "continuous_drop_off",
            RouteColumns::NetworkID => "network_id",
            RouteColumns::CEMVSupport => "cemv_support",
        }
    }

    pub fn get_required() -> (res: Vec<Self>)
        ensures
            res@ == Self::every_column().filter(|c: Self| c.presence_of() == ColumnPresence::Required),
    {
        columns_with(Self::all_columns(), ColumnPresence::Required)
    }

    pub fn get_conditionally_required() -> (res: Vec<Self>)
        ensures
            res@ == Self::every_column().filter(|c: Self| c.presence_of() == ColumnPresence::ConditionallyRequired),
    {
        columns_with(Self::all_columns(), ColumnPresence::ConditionallyRequired)
    }

    pub fn get_conditionally_forbidden() -> (res: Vec<Self>)
        ensures
            res@ == Self::every_column().filter(|c: Self| c.presence_of() == ColumnPresence::ConditionallyForbidden),
    {
        columns_with(Self::all_columns(), ColumnPresence::ConditionallyForbidden)
    }

    pub fn get_optional() -> (res: Vec<Self>)
        ensures
            res@ == Self::every_column().filter(|c: Self| c.presence_of() == ColumnPresence::Optional),
    {
        columns_with(Self::all_columns(), ColumnPresence::Optional)
    }

}

impl GtfsColumnSet for RouteColumns {
    open spec fn presence_of(self) -> ColumnPresence {
        match self {
            RouteColumns::RouteID => ColumnPresence::Required,
            RouteColumns::AgencyID => ColumnPresence::ConditionallyRequired,
            RouteColumns::ShortName => ColumnPresence::ConditionallyRequired,
            RouteColumns::LongName => ColumnPresence::ConditionallyRequired,
            RouteColumns::Description => ColumnPresence::Optional,
            RouteColumns::Type => ColumnPresence::Required,
            RouteColumns::URL => ColumnPresence::Optional,
            RouteColumns::Color => ColumnPresence::Optional,
            RouteColumns::TextColor => ColumnPresence::Optional,
            RouteColumns::SortOrder => ColumnPresence::Optional,
            RouteColumns::ContinuousPickup => ColumnPresence::ConditionallyForbidden,
            RouteColumns::ContinuousDropOff => ColumnPresence::ConditionallyForbidden,
            RouteColumns::NetworkID => ColumnPresence::ConditionallyForbidden,
            RouteColumns::CEMVSupport => ColumnPresence::Optional,
        }
    }

    open spec fn every_column() -> Seq<Self> {
        seq![
            RouteColumns::RouteID,
            RouteColumns::AgencyID,
            RouteColumns::ShortName,
            RouteColumns::LongName,
            RouteColumns::Description,
            RouteColumns::Type,
            RouteColumns::URL,
            RouteColumns::Color,
            RouteColumns::TextColor,
            RouteColumns::SortOrder,
            RouteColumns::ContinuousPickup,
            RouteColumns::ContinuousDropOff,
            RouteColumns::NetworkID,
            RouteColumns::CEMVSupport,
        ]
    }

    fn presence(&self) -> (res: ColumnPresence) {
        match self {
            RouteColumns::RouteID => ColumnPresence::Required,
            RouteColumns::AgencyID => ColumnPresence::ConditionallyRequired,
            RouteColumns::ShortName => ColumnPresence::ConditionallyRequired,
            RouteColumns::LongName => ColumnPresence::ConditionallyRequired,
            RouteColumns::Description => ColumnPresence::Optional,
            RouteColumns::Type => ColumnPresence::Required,
            RouteColumns::URL => ColumnPresence::Optional,
            RouteColumns::Color => ColumnPresence::Optional,
            RouteColumns::TextColor => ColumnPresence::Optional,
            RouteColumns::SortOrder => ColumnPresence::Optional,
            RouteColumns::ContinuousPickup => ColumnPresence::ConditionallyForbidden,
            RouteColumns::ContinuousDropOff => ColumnPresence::ConditionallyForbidden,
            RouteColumns::NetworkID => ColumnPresence::ConditionallyForbidden,
            RouteColumns::CEMVSupport => ColumnPresence::Optional,
        }
    }

    fn all_columns() -> (res: Vec<Self>) {
        let v = vec![
            RouteColumns::RouteID,
            RouteColumns::AgencyID,
            RouteColumns::ShortName,
            RouteColumns::LongName,
            RouteColumns::Description,
            RouteColumns::Type,
            RouteColumns::URL,
            RouteColumns::Color,
            RouteColumns::TextColor,
            RouteColumns::SortOrder,
            RouteColumns::ContinuousPickup,
            RouteColumns::ContinuousDropOff,
            RouteColumns::NetworkID,
            RouteColumns::CEMVSupport,
        ];
        proof {
            assert(v@ =~= Self::every_column());
        }
        v
    }
}

/// The columns of `trips.txt`.
#[derive(Debug, Clone, Copy, PartialEq, Eq, Structural)]
pub enum TripColumns {
    RouteID,
    ServiceID,
    TripID,
    HeadSign,
    ShortName,
    DirectionID,
    BlockID,
    ShapeID,
    WheelchairAccessible,
    BikesAllowed,
    CarsAllowed,
}

impl TripColumns {
    /// The column's name in the file.
    pub open spec fn column_name(self) -> Seq<char> {
        match self {
            TripColumns::RouteID => "route_id"@,
            TripColumns::ServiceID => "service_id"@,
            TripColumns::TripID => "trip_id"@,
            TripColumns::HeadSign => "trip_headsign"@,
            TripColumns::ShortName => "trip_short_name"@,
            TripColumns::DirectionID => "direction_id"@,
            TripColumns::BlockID => "block_id"@,
            TripColumns::ShapeID => "shape_id"@,
            TripColumns::WheelchairAccessible => "wheelchair_accessible"@,
            TripColumns::BikesAllowed => "bikes_allowed"@,
            TripColumns::CarsAllowed => "cars_allowed"@,
        }
    }

    /// The column's name in the file.
    pub fn name(&self) -> (res: &'static str)
        ensures
            res@ == self.column_name(),
    {
        match self {
            TripColumns::RouteID => "route_id",
            TripColumns::ServiceID => "service_id",
            TripColumns::TripID => "trip_id",
            TripColumns::HeadSign => "trip_headsign",
            TripColumns::ShortName => "trip_short_name",
            TripColumns::DirectionID => "direction_id",
            TripColumns::BlockID => "block_id",
            TripColumns::ShapeID => "shape_id",
            TripColumns::WheelchairAccessible => "wheelchair_accessible",
            TripColumns::BikesAllowed => "bikes_allowed",
            TripColumns::CarsAllowed => "cars_allowed",
        }
    }

    pub fn get_required() -> (res: Vec<Self>)
        ensures
            res@ == Self::every_column().filter(|c: Self| c.presence_of() == ColumnPresence::Required),
    {
        columns_with(Self::all_columns(), ColumnPresence::Required)
    }

    pub fn get_conditionally_required() -> (res: Vec<Self>)
        ensures
            res@ == Self::every_column().filter(|c: Self| c.presence_of() == ColumnPresence::ConditionallyRequired),
    {
        columns_with(Self::all_columns(), ColumnPresence::ConditionallyRequired)
    }

    pub fn get_conditionally_forbidden() -> (res: Vec<Self>)
        ensures
            res@ == Self::every_column().filter(|c: Self| c.presence_of() == ColumnPresence::ConditionallyForbidden),
    {
        columns_with(Self::all_columns(), ColumnPresence::ConditionallyForbidden)
    }

    pub fn get_optional() -> (res: Vec<Self>)
        ensures
            res@ == Self::every_column().filter(|c: Self| c.presence_of() == ColumnPresence::Optional),
    {
        columns_with(Self::all_columns(), ColumnPresence::Optional)
    }

}

impl GtfsColumnSet for TripColumns {
    open spec fn presence_of(self) -> ColumnPresence {
        match self {
            TripColumns::RouteID => ColumnPresence::Required,
            TripColumns::ServiceID => ColumnPresence::Required,
            TripColumns::TripID => ColumnPresence::Required,
            TripColumns::HeadSign => ColumnPresence::Optional,
            TripColumns::ShortName => ColumnPresence::Optional,
            TripColumns::DirectionID => ColumnPresence::Optional,
            TripColumns::BlockID => ColumnPresence::Optional,
            TripColumns::ShapeID => ColumnPresence::ConditionallyRequired,
            TripColumns::WheelchairAccessible => ColumnPresence::Optional,
            TripColumns::BikesAllowed => ColumnPresence::Optional,
            TripColumns::CarsAllowed => ColumnPresence::Optional,
        }
    }

    open spec fn every_column() -> Seq<Self> {
        seq![
            TripColumns::RouteID,
            TripColumns::ServiceID,
            TripColumns::TripID,
            TripColumns::HeadSign,
            TripColumns::ShortName,
            TripColumns::DirectionID,
            TripColumns::BlockID,
            TripColumns::ShapeID,
            TripColumns::WheelchairAccessible,
            TripColumns::BikesAllowed,
            TripColumns::CarsAllowed,
        ]
    }

    fn presence(&self) -> (res: ColumnPresence) {
        match self {
            TripColumns::RouteID => ColumnPresence::Required,
            TripColumns::ServiceID => ColumnPresence::Required,
            TripColumns::TripID => ColumnPresence::Required,
            TripColumns::HeadSign => ColumnPresence::Optional,
            TripColumns::ShortName => ColumnPresence::Optional,
            TripColumns::DirectionID => ColumnPresence::Optional,
            TripColumns::BlockID => ColumnPresence::Optional,
            TripColumns::ShapeID => ColumnPresence::ConditionallyRequired,
            TripColumns::WheelchairAccessible => ColumnPresence::Optional,
            TripColumns::BikesAllowed => ColumnPresence::Optional,
            TripColumns::CarsAllowed => ColumnPresence::Optional,
        }
    }

    fn all_columns() -> (res: Vec<Self>) {
        let v = vec![
            TripColumns::RouteID,
            TripColumns::ServiceID,
            TripColumns::TripID,
            TripColumns::HeadSign,
            TripColumns::ShortName,
            TripColumns::DirectionID,
            TripColumns::BlockID,
            TripColumns::ShapeID,
            TripColumns::WheelchairAccessible,
            TripColumns::BikesAllowed,
            TripColumns::CarsAllowed,
        ];
        proof {
            assert(v@ =~= Self::every_column());
        }
        v
    }
}

/// The columns of `stop_times.txt`.
#[derive(Debug, Clone, Copy, PartialEq, Eq, Structural)]
pub enum StopTimesColumns {
    TripID,
    ArrivalTime,
    DepartureTime,
    StopID,
    LocationGroupID,
    LocationID,
    StopSequence,
    StopHeadsign,
    StartPickupDropOffWindow,
    EndPickupDropOffWindow,
    PickupType,
    DropOffType,
    ContinuousPickup,
    ContinuousDropOff,
    ShapeDistTraveled,
    Timepoint,
    PickupBookingRuleId,
    DropOffBookingRuleId,
}

impl StopTimesColumns {
    /// The column's name in the file.
    pub open spec fn column_name(self) -> Seq<char> {
        match self {
            StopTimesColumns::TripID => "trip_id"@,
            StopTimesColumns::ArrivalTime => "arrival_time"@,
            StopTimesColumns::DepartureTime => "departure_time"@,
            StopTimesColumns::StopID => "stop_id"@,
            StopTimesColumns::LocationGroupID => "location_group_id"@,
            StopTimesColumns::LocationID => "location_id"@,
            StopTimesColumns::StopSequence => "stop_sequence"@,
            StopTimesColumns::StopHeadsign => "stop_headsign"@,
            StopTimesColumns::StartPickupDropOffWindow => "start_pickup_drop_off_window"@,
            StopTimesColumns::EndPickupDropOffWindow => "end_pickup_drop_off_window"@,
            StopTimesColumns::PickupType => "pickup_type"@,
            StopTimesColumns::DropOffType => "drop_off_type"@,
            StopTimesColumns::ContinuousPickup => "continuous_pickup"@,
            StopTimesColumns::ContinuousDropOff => "continuous_drop_off"@,
            StopTimesColumns::ShapeDistTraveled => "shape_dist_traveled"@,
            StopTimesColumns::Timepoint => "timepoint"@,
            StopTimesColumns::PickupBookingRuleId => "pickup_booking_rule_id"@,
            StopTimesColumns::DropOffBookingRuleId => "drop_off_booking_rule_id"@,
        }
    }

    /// The column's name in the file.
    pub fn name(&self) -> (res: &'static str)
        ensures
            res@ == self.column_name(),
    {
        match self {
            StopTimesColumns::TripID => "trip_id",
            StopTimesColumns::ArrivalTime => "arrival_time",
            StopTimesColumns::DepartureTime => "departure_time",
            StopTimesColumns::StopID => "stop_id",
            StopTimesColumns::LocationGroupID => "location_group_id",
            StopTimesColumns::LocationID => "location_id",
            StopTimesColumns::StopSequence => "stop_sequence",
            StopTimesColumns::StopHeadsign => "stop_headsign",
            StopTimesColumns::StartPickupDropOffWindow => "start_pickup_drop_off_window",
            StopTimesColumns::EndPickupDropOffWindow => "end_pickup_drop_off_window",
            StopTimesColumns::PickupType => "pickup_type",
            StopTimesColumns::DropOffType => "drop_off_type",
            StopTimesColumns::ContinuousPickup => "continuous_pickup",
            StopTimesColumns::ContinuousDropOff => "continuous_drop_off",
            StopTimesColumns::ShapeDistTraveled => "shape_dist_traveled",
            StopTimesColumns::Timepoint => "timepoint",
            StopTimesColumns::PickupBookingRuleId => "pickup_booking_rule_id",
            StopTimesColumns::DropOffBookingRuleId => "drop_off_booking_rule_id",
        }
    }

    pub fn get_required() -> (res: Vec<Self>)
        ensures
            res@ == Self::every_column().filter(|c: Self| c.presence_of() == ColumnPresence::Required),
    {
        columns_with(Self::all_columns(), ColumnPresence::Required)
    }

    pub fn get_conditionally_required() -> (res: Vec<Self>)
        ensures
            res@ == Self::every_column().filter(|c: Self| c.presence_of() == ColumnPresence::ConditionallyRequired),
    {
        columns_with(Self::all_columns(), ColumnPresence::ConditionallyRequired)
    }

    pub fn get_conditionally_forbidden() -> (res: Vec<Self>)
        ensures
            res@ == Self::every_column().filter(|c: Self| c.presence_of() == ColumnPresence::ConditionallyForbidden),
    {
        columns_with(Self::all_columns(), ColumnPresence::ConditionallyForbidden)
    }

    pub fn get_optional() -> (res: Vec<Self>)
        ensures
            res@ == Self::every_column().filter(|c: Self| c.presence_of() == ColumnPresence::Optional),
    {
        columns_with(Self::all_columns(), ColumnPresence::Optional)
    }

}

impl GtfsColumnSet for StopTimesColumns {
    open spec fn presence_of(self) -> ColumnPresence {
        match self {
            StopTimesColumns::TripID => ColumnPresence::Required,
            StopTimesColumns::ArrivalTime => ColumnPresence::ConditionallyRequired,
            StopTimesColumns::DepartureTime => ColumnPresence::ConditionallyRequired,
            StopTimesColumns::StopID => ColumnPresence::ConditionallyRequired,
            StopTimesColumns::LocationGroupID => ColumnPresence::ConditionallyForbidden,
            StopTimesColumns::LocationID => ColumnPresence::ConditionallyForbidden,
            StopTimesColumns::StopSequence => ColumnPresence::Required,
            StopTimesColumns::StopHeadsign => ColumnPresence::Optional,
            StopTimesColumns::StartPickupDropOffWindow => ColumnPresence::ConditionallyRequired,
            StopTimesColumns::EndPickupDropOffWindow => ColumnPresence::ConditionallyRequired,
            StopTimesColumns::PickupType => ColumnPresence::ConditionallyForbidden,
            StopTimesColumns::DropOffType => ColumnPresence::ConditionallyForbidden,
            StopTimesColumns::ContinuousPickup => ColumnPresence::ConditionallyForbidden,
            StopTimesColumns::ContinuousDropOff => ColumnPresence::ConditionallyForbidden,
            StopTimesColumns::ShapeDistTraveled => ColumnPresence::Optional,
            StopTimesColumns::Timepoint => ColumnPresence::Optional,
            StopTimesColumns::PickupBookingRuleId => ColumnPresence::Optional,
            StopTimesColumns::DropOffBookingRuleId => ColumnPresence::Optional,
        }
    }

    open spec fn every_column() -> Seq<Self> {
        seq![
            StopTimesColumns::TripID,
            StopTimesColumns::ArrivalTime,
            StopTimesColumns::DepartureTime,
            StopTimesColumns::StopID,
            StopTimesColumns::LocationGroupID,
            StopTimesColumns::LocationID,
            StopTimesColumns::StopSequence,
            StopTimesColumns::StopHeadsign,
            StopTimesColumns::StartPickupDropOffWindow,
            StopTimesColumns::EndPickupDropOffWindow,
            StopTimesColumns::PickupType,
            StopTimesColumns::DropOffType,
            StopTimesColumns::ContinuousPickup,
            StopTimesColumns::ContinuousDropOff,
            StopTimesColumns::ShapeDistTraveled,
            StopTimesColumns::Timepoint,
            StopTimesColumns::PickupBookingRuleId,
            StopTimesColumns::DropOffBookingRuleId,
        ]
    }

    fn presence(&self) -> (res: ColumnPresence) {
        match self {
            StopTimesColumns::TripID => ColumnPresence::Required,
            StopTimesColumns::ArrivalTime => ColumnPresence::ConditionallyRequired,
            StopTimesColumns::DepartureTime => ColumnPresence::ConditionallyRequired,
            StopTimesColumns::StopID => ColumnPresence::ConditionallyRequired,
            StopTimesColumns::LocationGroupID => ColumnPresence::ConditionallyForbidden,
            StopTimesColumns::LocationID => ColumnPresence::ConditionallyForbidden,
            StopTimesColumns::StopSequence => ColumnPresence::Required,
            StopTimesColumns::StopHeadsign => ColumnPresence::Optional,
            StopTimesColumns::StartPickupDropOffWindow => ColumnPresence::ConditionallyRequired,
            StopTimesColumns::EndPickupDropOffWindow => ColumnPresence::ConditionallyRequired,
            StopTimesColumns::PickupType => ColumnPresence::ConditionallyForbidden,
            StopTimesColumns::DropOffType => ColumnPresence::ConditionallyForbidden,
            StopTimesColumns::ContinuousPickup => ColumnPresence::ConditionallyForbidden,
            StopTimesColumns::ContinuousDropOff => ColumnPresence::ConditionallyForbidden,
            StopTimesColumns::ShapeDistTraveled => ColumnPresence::Optional,
            StopTimesColumns::Timepoint => ColumnPresence::Optional,
            StopTimesColumns::PickupBookingRuleId => ColumnPresence::Optional,
            StopTimesColumns::DropOffBookingRuleId => ColumnPresence::Optional,
        }
    }

    fn all_columns() -> (res: Vec<Self>) {
        let v = vec![
            StopTimesColumns::TripID,
            StopTimesColumns::ArrivalTime,
            StopTimesColumns::DepartureTime,
            StopTimesColumns::StopID,
            StopTimesColumns::LocationGroupID,
            StopTimesColumns::LocationID,
            StopTimesColumns::StopSequence,
            StopTimesColumns::StopHeadsign,
            StopTimesColumns::StartPickupDropOffWindow,
            StopTimesColumns::EndPickupDropOffWindow,
            StopTimesColumns::PickupType,
            StopTimesColumns::DropOffType,
            StopTimesColumns::ContinuousPickup,
            StopTimesColumns::ContinuousDropOff,
            StopTimesColumns::ShapeDistTraveled,
            StopTimesColumns::Timepoint,
            StopTimesColumns::PickupBookingRuleId,
            StopTimesColumns::DropOffBookingRuleId,
        ];
        proof {
            assert(v@ =~= Self::every_column());
        }
        v
    }
}

/// The columns of `calendar.txt`.
#[derive(Debug, Clone, Copy, PartialEq, Eq, Structural)]
pub enum CalendarTimes {
    ServiceID,
    Monday,
    Tuesday,
    Wednesday,
    Thursday,
    Friday,
    Saturday,
    Sunday,
    StartDate,
    EndDate,
}

impl CalendarTimes {
    /// The column's name in the file.
    pub open spec fn column_name(self) -> Seq<char> {
        match self {
            CalendarTimes::ServiceID => "service_id"@,
            CalendarTimes::Monday => "monday"@,
            CalendarTimes::Tuesday => "tuesday"@,
            CalendarTimes::Wednesday => "wednesday"@,
            CalendarTimes::Thursday => "thursday"@,
            CalendarTimes::Friday => "friday"@,
            CalendarTimes::Saturday => "saturday"@,
            CalendarTimes::Sunday => "sunday"@,
            CalendarTimes::StartDate => "start_date"@,
            CalendarTimes::EndDate => "end_date"@,
        }
    }

    /// The column's name in the file.
    pub fn name(&self) -> (res: &'static str)
        ensures
            res@ == self.column_name(),
    {
        match self {
            CalendarTimes::ServiceID => "service_id",
            CalendarTimes::Monday => "monday",
            CalendarTimes::Tuesday => "tuesday",
            CalendarTimes::Wednesday => "wednesday",
            CalendarTimes::Thursday => "thursday",
            CalendarTimes::Friday => "friday",
            CalendarTimes::Saturday => "saturday",
            CalendarTimes::Sunday => "sunday",
            CalendarTimes::StartDate => "start_date",
            CalendarTimes::EndDate => "end_date",
        }
    }

    pub fn get_required() -> (res: Vec<Self>)
        ensures
            res@ == Self::every_column().filter(|c: Self| c.presence_of() == ColumnPresence::Required),
    {
        columns_with(Self::all_columns(), ColumnPresence::Required)
    }

    pub fn get_conditionally_required() -> (res: Vec<Self>)
        ensures
            res@ == Self::every_column().filter(|c: Self| c.presence_of() == ColumnPresence::ConditionallyRequired),
    {
        columns_with(Self::all_columns(), ColumnPresence::ConditionallyRequired)
    }

    pub fn get_conditionally_forbidden() -> (res: Vec<Self>)
        ensures
            res@ == Self::every_column().filter(|c: Self| c.presence_of() == ColumnPresence::ConditionallyForbidden),
    {
        columns_with(Self::all_columns(), ColumnPresence::ConditionallyForbidden)
    }

    pub fn get_optional() -> (res: Vec<Self>)
        ensures
            res@ == Self::every_column().filter(|c: Self| c.presence_of() == ColumnPresence::Optional),
    {
        columns_with(Self::all_columns(), ColumnPresence::Optional)
    }

}

impl GtfsColumnSet for CalendarTimes {
    open spec fn presence_of(self) -> ColumnPresence {
        match self {
            CalendarTimes::ServiceID => ColumnPresence::Required,
            CalendarTimes::Monday => ColumnPresence::Required,
            CalendarTimes::Tuesday => ColumnPresence::Required,
            CalendarTimes::Wednesday => ColumnPresence::Required,
            CalendarTimes::Thursday => ColumnPresence::Required,
            CalendarTimes::Friday => ColumnPresence::Required,
            CalendarTimes::Saturday => ColumnPresence::Required,
            CalendarTimes::Sunday => ColumnPresence::Required,
            CalendarTimes::StartDate => ColumnPresence::Required,
            CalendarTimes::EndDate => ColumnPresence::Required,
        }
    }

    open spec fn every_column() -> Seq<Self> {
        seq![
            CalendarTimes::ServiceID,
            CalendarTimes::Monday,
            CalendarTimes::Tuesday,
            CalendarTimes::Wednesday,
            CalendarTimes::Thursday,
            CalendarTimes::Friday,
            CalendarTimes::Saturday,
            CalendarTimes::Sunday,
            CalendarTimes::StartDate,
            CalendarTimes::EndDate,
        ]
    }

    fn presence(&self) -> (res: ColumnPresence) {
        match self {
            CalendarTimes::ServiceID => ColumnPresence::Required,
            CalendarTimes::Monday => ColumnPresence::Required,
            CalendarTimes::Tuesday => ColumnPresence::Required,
            CalendarTimes::Wednesday => ColumnPresence::Required,
            CalendarTimes::Thursday => ColumnPresence::Required,
            CalendarTimes::Friday => ColumnPresence::Required,
            CalendarTimes::Saturday => ColumnPresence::Required,
            CalendarTimes::Sunday => ColumnPresence::Required,
            CalendarTimes::StartDate => ColumnPresence::Required,
            CalendarTimes::EndDate => ColumnPresence::Required,
        }
    }

    fn all_columns() -> (res: Vec<Self>) {
        let v = vec![
            CalendarTimes::ServiceID,
            CalendarTimes::Monday,
            CalendarTimes::Tuesday,
            CalendarTimes::Wednesday,
            CalendarTimes::Thursday,
            CalendarTimes::Friday,
            CalendarTimes::Saturday,
            CalendarTimes::Sunday,
            CalendarTimes::StartDate,
            CalendarTimes::EndDate,
        ];
        proof {
            assert(v@ =~= Self::every_column());
        }
        v
    }
}

/// The columns of `calendar_dates.txt`.
#[derive(Debug, Clone, Copy, PartialEq, Eq, Structural)]
pub enum CalendarDates {
    ServiceID,
    Date,
    ExceptionType,
}

impl CalendarDates {
    /// The column's name in the file.
    pub open spec fn column_name(self) -> Seq<char> {
        match self {
            CalendarDates::ServiceID => "service_id"@,
            CalendarDates::Date => "date"@,
            CalendarDates::ExceptionType => "exception_type"@,
        }
    }

    /// The column's name in the file.
    pub fn name(&self) -> (res: &'static str)
        ensures
            res@ == self.column_name(),
    {
        match self {
            CalendarDates::ServiceID => "service_id",
            CalendarDates::Date => "date",
            CalendarDates::ExceptionType => "exception_type",
        }
    }

    pub fn get_required() -> (res: Vec<Self>)
        ensures
            res@ == Self::every_column().filter(|c: Self| c.presence_of() == ColumnPresence::Required),
    {
        columns_with(Self::all_columns(), ColumnPresence::Required)
    }

    pub fn get_conditionally_required() -> (res: Vec<Self>)
        ensures
            res@ == Self::every_column().filter(|c: Self| c.presence_of() == ColumnPresence::ConditionallyRequired),
    {
        columns_with(Self::all_columns(), ColumnPresence::ConditionallyRequired)
    }

    pub fn get_conditionally_forbidden() -> (res: Vec<Self>)
        ensures
            res@ == Self::every_column().filter(|c: Self| c.presence_of() == ColumnPresence::ConditionallyForbidden),
    {
        columns_with(Self::all_columns(), ColumnPresence::ConditionallyForbidden)
    }

    pub fn get_optional() -> (res: Vec<Self>)
        ensures
            res@ == Self::every_column().filter(|c: Self| c.presence_of() == ColumnPresence::Optional),
    {
        columns_with(Self::all_columns(), ColumnPresence::Optional)
    }

}

impl GtfsColumnSet for CalendarDates {
    open spec fn presence_of(self) -> ColumnPresence {
        match self {
            CalendarDates::ServiceID => ColumnPresence::Required,
            CalendarDates::Date => ColumnPresence::Required,
            CalendarDates::ExceptionType => ColumnPresence::Required,
        }
    }

    open spec fn every_column() -> Seq<Self> {
        seq![
            CalendarDates::ServiceID,
            CalendarDates::Date,
            CalendarDates::ExceptionType,
        ]
    }

    fn presence(&self) -> (res: ColumnPresence) {
        match self {
            CalendarDates::ServiceID => ColumnPresence::Required,
            CalendarDates::Date => ColumnPresence::Required,
            CalendarDates::ExceptionType => ColumnPresence::Required,
        }
    }

    fn all_columns() -> (res: Vec<Self>) {
        let v = vec![
            CalendarDates::ServiceID,
            CalendarDates::Date,
            CalendarDates::ExceptionType,
        ];
        proof {
            assert(v@ =~= Self::every_column());
        }
        v
    }
}

} // verus!
